//! A slab: objects are stored in numbered slots, and the number of a vacated
//! slot is handed out again, last vacated first.

use vstd::prelude::*;

verus! {

/// The end of the chain of vacant slots.
const END: usize = usize::MAX;

enum Slot<T> {
    /// Holds the number of the slot that was vacant before this one, or `END`.
    Vacant(usize),
    Occupied(T),
}

impl<T> Slot<T> {
    fn is_occupied(&self) -> (r: bool)
        ensures
            r == (self is Occupied),
    {
        match self {
            Slot::Vacant(_) => false,
            Slot::Occupied(_) => true,
        }
    }

    spec fn object(self) -> Option<T> {
        match self {
            Slot::Vacant(_) => None,
            Slot::Occupied(object) => Some(object),
        }
    }
}

/// A collection of objects under small integer keys.
pub struct Colo<T> {
    slots: Vec<Slot<T>>,
    limited: usize,
    len: usize,
    head: usize,
    chain: Ghost<Seq<usize>>,
}

/// The number of slots among `slots` that hold an object.
pub open spec fn occupied<T>(slots: Seq<Option<T>>) -> nat
    decreases slots.len(),
{
    if slots.len() == 0 {
        0
    } else {
        occupied(slots.drop_last()) + (if slots.last() is Some { 1nat } else { 0nat })
    }
}

/// The objects in `slots` with the numbers of their slots, in ascending order of number, where
/// the first of `slots` has the number `base`.
pub open spec fn entries<T>(slots: Seq<Option<T>>, base: nat) -> Seq<(usize, T)>
    decreases slots.len(),
{
    if slots.len() == 0 {
        Seq::empty()
    } else {
        match slots[0] {
            Some(object) => seq![(base as usize, object)] + entries(slots.drop_first(), base + 1),
            None => entries(slots.drop_first(), base + 1),
        }
    }
}

proof fn lemma_occupied_update<T>(slots: Seq<Option<T>>, i: int, v: Option<T>)
    requires
        0 <= i < slots.len(),
    ensures
        occupied(slots.update(i, v)) == occupied(slots) - (if slots[i] is Some { 1int } else { 0 })
            + (if v is Some { 1int } else { 0 }),
    decreases slots.len(),
{
    let upd = slots.update(i, v);
    if i == slots.len() - 1 {
        assert(upd.drop_last() =~= slots.drop_last());
    } else {
        assert(upd.drop_last() =~= slots.drop_last().update(i, v));
        lemma_occupied_update(slots.drop_last(), i, v);
    }
}


proof fn lemma_occupied_push<T>(slots: Seq<Option<T>>, v: Option<T>)
    ensures
        occupied(slots.push(v)) == occupied(slots) + (if v is Some { 1int } else { 0 }),
{
    assert(slots.push(v).drop_last() =~= slots);
}

proof fn lemma_occupied_bounds<T>(slots: Seq<Option<T>>)
    ensures
        occupied(slots) <= slots.len(),
        forall|i: int| 0 <= i < slots.len() && slots[i] is None ==> occupied(slots) < slots.len(),
        forall|i: int| 0 <= i < slots.len() && slots[i] is Some ==> occupied(slots) > 0,
        (forall|i: int| 0 <= i < slots.len() ==> slots[i] is Some) ==> occupied(slots)
            == slots.len(),
    decreases slots.len(),
{
    if slots.len() > 0 {
        let front = slots.drop_last();
        lemma_occupied_bounds(front);
        assert forall|i: int| 0 <= i < slots.len() && slots[i] is None implies occupied(slots)
            < slots.len() by {
            if i < front.len() {
                assert(front[i] is None);
            }
        }
        assert forall|i: int| 0 <= i < slots.len() && slots[i] is Some implies occupied(slots)
            > 0 by {
            if i < front.len() {
                assert(front[i] is Some);
            }
        }
        if forall|i: int| 0 <= i < slots.len() ==> slots[i] is Some {
            assert forall|i: int| 0 <= i < front.len() implies front[i] is Some by {
                assert(slots[i] is Some);
            }
            assert(slots[slots.len() - 1] is Some);
        }
    }
}

impl<T> View for Colo<T> {
    type V = Seq<Option<T>>;

    /// The slots by number; a vacant slot is `None`.
    closed spec fn view(&self) -> Seq<Option<T>> {
        Seq::new(self.slots@.len(), |i: int| self.slots@[i].object())
    }
}

impl<T> Colo<T> {
    /// The vacant slots, in the order in which they will be used again.
    pub closed spec fn vacancies(&self) -> Seq<usize> {
        self.chain@
    }

    /// The number of objects that the collection may hold; 0 stands for no limit.
    pub closed spec fn limit(&self) -> usize {
        self.limited
    }

    /// The slot that the next object goes to.
    pub open spec fn next_slot(&self) -> usize {
        if self.vacancies().len() == 0 {
            self@.len() as usize
        } else {
            self.vacancies()[0]
        }
    }

    /// No further object is taken in.
    pub open spec fn at_limit(&self) -> bool {
        self.limit() != 0 && occupied(self@) == self.limit()
    }

    /// The vacant slots are chained from `head` on, each once, and are counted out of `len`.
    pub closed spec fn wf(&self) -> bool {
        &&& self.len == occupied(self@)
        &&& self.chain@.no_duplicates()
        &&& forall|k: int| 0 <= k < self.chain@.len() ==> (#[trigger] self.chain@[k])
            < self.slots@.len()
        &&& forall|k: int|
            0 <= k < self.chain@.len() ==> self.slots@[(#[trigger] self.chain@[k]) as int]
                == Slot::<T>::Vacant(self.link(k + 1))
        &&& forall|i: int|
            0 <= i < self.slots@.len() && (#[trigger] self.slots@[i]) is Vacant
                ==> self.chain@.contains(i as usize)
        &&& self.head == self.link(0)
    }

    /// The `k`-th slot of the chain, or its end.
    spec fn link(&self, k: int) -> usize {
        if k < self.chain@.len() {
            self.chain@[k]
        } else {
            END
        }
    }

    /// What holds of the vacant slots of every well-formed collection: they are listed, each
    /// once, and a collection without any holds an object in every slot.
    pub proof fn lemma_vacancies(&self)
        requires
            self.wf(),
        ensures
            self.vacancies().no_duplicates(),
            forall|k: int| 0 <= k < self.vacancies().len() ==> {
                &&& (#[trigger] self.vacancies()[k]) < self@.len()
                &&& self@[self.vacancies()[k] as int] is None
            },
            forall|i: int| 0 <= i < self@.len() && (#[trigger] self@[i]) is None
                ==> self.vacancies().contains(i as usize),
            self.vacancies().len() == 0 ==> occupied(self@) == self@.len(),
            self@.len() <= usize::MAX,
    {
        assert(self.slots@.len() == self.slots.len());
        assert forall|i: int| 0 <= i < self@.len() && (#[trigger] self@[i]) is None implies
            self.vacancies().contains(i as usize) by {
            assert(self.slots@[i] is Vacant);
        }
        if self.vacancies().len() == 0 {
            lemma_occupied_bounds(self@);
            assert forall|i: int| 0 <= i < self@.len() implies self@[i] is Some by {
                if self@[i] is None {
                    assert(self.vacancies().contains(i as usize));
                }
            }
        }
    }

    #[inline]
    pub fn new() -> (r: Self)
        ensures
            r.wf(),
            r@ == Seq::<Option<T>>::empty(),
            r.vacancies() == Seq::<usize>::empty(),
            r.limit() == 0,
    {
        let r = Colo {
            slots: Vec::new(),
            limited: 0,
            len: 0,
            head: END,
            chain: Ghost(Seq::empty()),
        };
        assert(r@ =~= Seq::empty());
        r
    }

    /// An empty collection with room for so many objects.
    #[inline]
    pub fn with_capacity(cap: usize) -> (r: Self)
        requires
            Self::fits(cap as nat),
        ensures
            r.wf(),
            r@ == Seq::<Option<T>>::empty(),
            r.vacancies() == Seq::<usize>::empty(),
            r.limit() == 0,
    {
        let r = Colo {
            slots: Vec::with_capacity(cap),
            limited: 0,
            len: 0,
            head: END,
            chain: Ghost(Seq::empty()),
        };
        assert(r@ =~= Seq::empty());
        r
    }

    /// A collection that takes in no object beyond the first `limit` ones; 0 stands for no limit.
    #[inline]
    pub fn with_limited(limit: usize) -> (r: Self)
        ensures
            r.wf(),
            r@ == Seq::<Option<T>>::empty(),
            r.vacancies() == Seq::<usize>::empty(),
            r.limit() == limit,
    {
        let r = Colo {
            slots: Vec::new(),
            limited: limit,
            len: 0,
            head: END,
            chain: Ghost(Seq::empty()),
        };
        assert(r@ =~= Seq::empty());
        r
    }

    #[inline]
    pub fn len(&self) -> (r: usize)
        requires
            self.wf(),
        ensures
            r == occupied(self@),
    {
        self.len
    }

    #[inline]
    pub fn is_empty(&self) -> (r: bool)
        requires
            self.wf(),
        ensures
            r == (forall|i: int| 0 <= i < self@.len() ==> (#[trigger] self@[i]) is None),
            r == (occupied(self@) == 0),
    {
        proof {
            lemma_occupied_bounds(self@);
            if forall|i: int| 0 <= i < self@.len() ==> (#[trigger] self@[i]) is None {
                lemma_none_occupied(self@);
            }
        }
        self.len == 0
    }

    /// The slot that the next object goes to.
    #[inline]
    pub fn next_vacant(&self) -> (r: usize)
        requires
            self.wf(),
        ensures
            r == self.next_slot(),
    {
        proof {
            self.lemma_vacancies();
            assert(self.slots@.len() == self.slots.len());
        }
        if self.head == END {
            self.len
        } else {
            self.head
        }
    }

    /// What comes of inserting `object`.
    pub open spec fn inserts(&self, object: T, index: usize, after: &Self) -> bool {
        &&& after.wf()
        &&& after.limit() == self.limit()
        &&& if self.at_limit() {
            &&& index == 0
            &&& after@ == self@
            &&& after.vacancies() == self.vacancies()
        } else {
            &&& index == self.next_slot()
            &&& index <= self@.len()
            &&& after@ == (if index == self@.len() {
                self@.push(Some(object))
            } else {
                self@.update(index as int, Some(object))
            })
            &&& after.vacancies() == (if self.vacancies().len() == 0 {
                Seq::<usize>::empty()
            } else {
                self.vacancies().drop_first()
            })
        }
    }

    /// What comes of removing what is in the slot `index`.
    pub open spec fn removes(&self, index: usize, r: Option<T>, after: &Self) -> bool {
        &&& after.wf()
        &&& after.limit() == self.limit()
        &&& if index < self@.len() && self@[index as int] is Some {
            &&& r == self@[index as int]
            &&& after@ == self@.update(index as int, None)
            &&& after.vacancies() == seq![index] + self.vacancies()
        } else {
            &&& r is None
            &&& after@ == self@
            &&& after.vacancies() == self.vacancies()
        }
    }

    /// Puts `object` into the next slot and gives the number of that slot. At the limit the
    /// object is dropped, and the result is 0.
    #[inline]
    pub fn insert(&mut self, object: T) -> (index: usize)
        requires
            old(self).wf(),
        ensures
            old(self).inserts(object, index, final(self)),
            old(self).limit() == 0 || occupied(old(self)@) != old(self).limit() ==> {
                &&& index < final(self)@.len()
                &&& final(self)@[index as int] == Some(object)
                &&& index < old(self)@.len() ==> old(self)@[index as int] is None
            },
            forall|i: int| 0 <= i < old(self)@.len() && old(self)@[i] is Some ==> i < final(self)@.len()
                && final(self)@[i] == #[trigger] old(self)@[i],
    {
        if self.limited != 0 {
            if self.len == self.limited {
                return 0;
            }
        }
        proof {
            self.lemma_vacancies();
            assert(self.slots@.len() == self.slots.len());
        }
        let ghost before = *self;
        if self.head == END {
            self.slots.push(Slot::Occupied(object));
            proof {
                assert(before.vacancies() =~= Seq::<usize>::empty());
                assert(self@ =~= before@.push(Some(object)));
                lemma_occupied_push(before@, Some(object));
                assert(self.slots@.len() == self.slots.len());
            }
            self.len = self.len + 1;
            proof {
                assert forall|i: int|
                    0 <= i < self.slots@.len() && (#[trigger] self.slots@[i])
                        is Vacant implies self.chain@.contains(i as usize) by {
                    assert(before.slots@[i] is Vacant);
                }
            }
            self.len - 1
        } else {
            let index = self.head;
            let next: usize = match &self.slots[index] {
                Slot::Vacant(next) => *next,
                Slot::Occupied(_) => END,
            };
            proof {
                assert(before.chain@[0] == index);
                assert(before@[index as int] is None);
                lemma_occupied_bounds(before@);
                lemma_occupied_update(before@, index as int, Some(object));
                self.chain@ = before.chain@.drop_first();
            }
            self.head = next;
            self.slots[index] = Slot::Occupied(object);
            self.len = self.len + 1;
            proof {
                assert(self@ =~= before@.update(index as int, Some(object)));
                assert forall|k: int| 0 <= k < self.chain@.len() implies self.slots@[(
                #[trigger] self.chain@[k]) as int] == Slot::<T>::Vacant(self.link(k + 1)) by {
                    assert(self.chain@[k] == before.chain@[k + 1]);
                    assert(self.chain@[k] != index);
                }
                assert forall|i: int|
                    0 <= i < self.slots@.len() && (#[trigger] self.slots@[i])
                        is Vacant implies self.chain@.contains(i as usize) by {
                    assert(before.slots@[i] is Vacant);
                    let k = choose|k: int|
                        0 <= k < before.chain@.len() && before.chain@[k] == i as usize;
                    assert(k != 0);
                    assert(self.chain@[k - 1] == i as usize);
                }
            }
            index
        }
    }

    /// Takes the object out of slot `index`, if there is one.
    #[inline]
    pub fn remove(&mut self, index: usize) -> (r: Option<T>)
        requires
            old(self).wf(),
        ensures
            old(self).removes(index, r, final(self)),
    {
        if index >= self.slots.len() {
            return None;
        }
        if !self.slots[index].is_occupied() {
            return None;
        }
        let ghost before = *self;
        let mut slot = Slot::Vacant(self.head);
        core::mem::swap(&mut self.slots[index], &mut slot);
        match slot {
            Slot::Occupied(object) => {
                proof {
                    lemma_occupied_bounds(before@);
                    assert(before@[index as int] is Some);
                    lemma_occupied_update(before@, index as int, None);
                    self.chain@ = seq![index] + before.chain@;
                }
                self.head = index;
                self.len = self.len - 1;
                proof {
                    assert(self@ =~= before@.update(index as int, None));
                    assert forall|k: int| 0 <= k < self.chain@.len() implies {
                        &&& (#[trigger] self.chain@[k]) < self.slots@.len()
                        &&& self.slots@[self.chain@[k] as int] == Slot::<T>::Vacant(
                            self.link(k + 1),
                        )
                    } by {
                        if k > 0 {
                            assert(self.chain@[k] == before.chain@[k - 1]);
                            assert(before.slots@[before.chain@[k - 1] as int] is Vacant);
                        }
                    }
                    assert forall|i: int|
                        0 <= i < self.slots@.len() && (#[trigger] self.slots@[i])
                            is Vacant implies self.chain@.contains(i as usize) by {
                        if i == index {
                            assert(self.chain@[0] == index);
                        } else {
                            assert(before.slots@[i] is Vacant);
                            let k = choose|k: int|
                                0 <= k < before.chain@.len() && before.chain@[k] == i as usize;
                            assert(self.chain@[k + 1] == i as usize);
                        }
                    }
                    assert forall|a: int, b: int|
                        0 <= a < b < self.chain@.len() implies self.chain@[a]
                        != self.chain@[b] by {
                        assert(self.chain@[b] == before.chain@[b - 1]);
                        if a == 0 {
                            assert(before.slots@[before.chain@[b - 1] as int] is Vacant);
                        } else {
                            assert(self.chain@[a] == before.chain@[a - 1]);
                        }
                    }
                }
                Some(object)
            },
            Slot::Vacant(_) => None,
        }
    }

    /// Shows every object to `f`, in ascending order of the slots, and takes those out for which
    /// `f` says no; `f` may change the object.
    #[verifier::spinoff_prover]
    #[verifier::rlimit(50)]
    pub fn retain<F: FnMut(usize, &mut T) -> bool>(&mut self, mut f: F)
        requires
            old(self).wf(),
            forall|i: usize, object: &mut T|
                i < old(self)@.len() && Some(*object) == old(self)@[i as int]
                    ==> #[trigger] call_requires(f, (i, object)),
        ensures
            final(self).wf(),
            final(self).limit() == old(self).limit(),
            final(self)@.len() == old(self)@.len(),
            forall|i: int|
                0 <= i < old(self)@.len() && (#[trigger] old(self)@[i]) is None
                    ==> final(self)@[i] is None,
            forall|i: int|
                0 <= i < old(self)@.len() && (#[trigger] old(self)@[i]) is Some
                    ==> exists|shown: &mut T, keep: bool| #[trigger]
                    call_ensures(f, (i as usize, shown), keep) && Some(*shown) == old(self)@[i]
                        && final(self)@[i] == (if keep {
                        Some(*final(shown))
                    } else {
                        None
                    }),
            final(self).vacancies() == vacated(old(self)@, final(self)@, old(self)@.len())
                + old(self).vacancies(),
    {
        let ghost before = *self;
        let ghost given = f;
        assert(self.intact()) by {
            reveal(Colo::intact);
        }
        let n = self.slots.len();
        assert(vacated(before@, self@, 0) + before.vacancies() =~= before.vacancies());
        for i in 0..n
            invariant
                f == given,
                self.intact(),
                n == before@.len(),
                self@.len() == n,
                self.limit() == before.limit(),
                forall|i: usize, object: &mut T|
                    i < before@.len() && Some(*object) == before@[i as int]
                        ==> #[trigger] call_requires(given, (i, object)),
                forall|j: int| i <= j < n ==> self@[j] == before@[j],
                forall|j: int| 0 <= j < i && (#[trigger] before@[j]) is None ==> self@[j] is None,
                forall|j: int|
                    0 <= j < i && (#[trigger] before@[j]) is Some
                        ==> exists|shown: &mut T, keep: bool| #[trigger]
                        call_ensures(given, (j as usize, shown), keep) && Some(*shown) == before@[j]
                            && self@[j] == (if keep {
                            Some(*final(shown))
                        } else {
                            None
                        }),
                self.vacancies() == vacated(before@, self@, i as nat) + before.vacancies(),
        {
            let ghost at = *self;
            assert(at@[i as int] == before@[i as int]);
            assert(forall|object: &mut T|
                Some(*object) == at@[i as int] ==> #[trigger] call_requires(given, (i, object)));
            self.retain_slot(i, &mut f);
            proof {
                assert forall|j: int| 0 <= j < i + 1 && (#[trigger] before@[j]) is Some implies exists|
                    shown: &mut T,
                    keep: bool,
                | #[trigger]
                    call_ensures(given, (j as usize, shown), keep) && Some(*shown) == before@[j]
                        && self@[j] == (if keep {
                        Some(*final(shown))
                    } else {
                        None
                    }) by {
                    assert(j != i ==> self@[j] == at@[j]);
                    assert(j as usize == j);
                }
                lemma_vacated_same(before@, at@, self@, i as nat);
                assert(self.vacancies() =~= vacated(before@, self@, (i + 1) as nat)
                    + before.vacancies());
            }
        }
        assert(self.wf()) by {
            reveal(Colo::intact);
        }
    }

    /// The collection is well-formed, which is looked into only where it is needed.
    #[verifier::opaque]
    spec fn intact(&self) -> bool {
        self.wf()
    }

    /// Shows the object of slot `i`, if there is one, to `f`, and takes it out if `f` says no.
    fn retain_slot<F: FnMut(usize, &mut T) -> bool>(&mut self, i: usize, f: &mut F)
        requires
            old(self).intact(),
            i < old(self)@.len(),
            forall|object: &mut T|
                Some(*object) == old(self)@[i as int] ==> #[trigger] call_requires(*old(f), (i, object)),
        ensures
            *final(f) == *old(f),
            final(self).intact(),
            final(self).limit() == old(self).limit(),
            final(self)@.len() == old(self)@.len(),
            forall|j: int| 0 <= j < old(self)@.len() && j != i ==> final(self)@[j] == old(self)@[j],
            old(self)@[i as int] is None ==> final(self)@[i as int] is None,
            old(self)@[i as int] is Some ==> exists|shown: &mut T, keep: bool| #[trigger]
                call_ensures(*old(f), (i, shown), keep) && Some(*shown) == old(self)@[i as int]
                    && final(self)@[i as int] == (if keep {
                    Some(*final(shown))
                } else {
                    None
                }),
            final(self).vacancies() == (if old(self)@[i as int] is Some && final(self)@[i as int]
                is None {
                seq![i] + old(self).vacancies()
            } else {
                old(self).vacancies()
            }),
    {
        reveal(Colo::intact);
        let keep: bool = match self.get_mut(i) {
            Some(object) => f(i, object),
            None => true,
        };
        if !keep {
            self.remove(i);
        }
    }

    #[inline]
    pub fn clear(&mut self)
        requires
            old(self).wf(),
        ensures
            final(self).wf(),
            final(self)@ == Seq::<Option<T>>::empty(),
            final(self).vacancies() == Seq::<usize>::empty(),
            final(self).limit() == old(self).limit(),
    {
        self.slots.clear();
        self.len = 0;
        self.head = END;
        proof {
            self.chain@ = Seq::empty();
            assert(self@ =~= Seq::empty());
        }
    }

    #[inline]
    pub fn get(&self, index: usize) -> (r: Option<&T>)
        requires
            self.wf(),
        ensures
            r == (if index < self@.len() {
                match self@[index as int] {
                    Some(object) => Some(&object),
                    None => None,
                }
            } else {
                None
            }),
    {
        if index >= self.slots.len() {
            return None;
        }
        match &self.slots[index] {
            Slot::Vacant(_) => None,
            Slot::Occupied(object) => Some(object),
        }
    }

    #[inline]
    pub fn get_mut(&mut self, index: usize) -> (r: Option<&mut T>)
        requires
            old(self).wf(),
        ensures
            final(self).wf(),
            final(self).limit() == old(self).limit(),
            final(self).vacancies() == old(self).vacancies(),
            r is Some <==> index < old(self)@.len() && old(self)@[index as int] is Some,
            r is None ==> final(self)@ == old(self)@,
            r matches Some(object) ==> {
                &&& *object == old(self)@[index as int]->0
                &&& final(self)@ == old(self)@.update(index as int, Some(*final(object)))
            },
    {
        if index >= self.slots.len() {
            return None;
        }
        if !self.slots[index].is_occupied() {
            return None;
        }
        let ghost before = *self;
        proof {
            assert forall|after: Self|
                before.slots@[index as int] is Occupied && after.replaces(
                    before,
                    index,
                ) implies #[trigger] after.wf() && after@ == before@.update(
                index as int,
                after@[index as int],
            ) by {
                after.lemma_replaces(before, index);
            }
        }
        match &mut self.slots[index] {
            Slot::Vacant(_) => None,
            Slot::Occupied(object) => Some(object),
        }
    }

    /// `self` is `before` with another object in the occupied slot `index`.
    spec fn replaces(self, before: Self, index: usize) -> bool {
        &&& self.slots@.len() == before.slots@.len()
        &&& self.slots@ == before.slots@.update(index as int, self.slots@[index as int])
        &&& self.slots@[index as int] is Occupied
        &&& self.limited == before.limited
        &&& self.len == before.len
        &&& self.head == before.head
        &&& self.chain == before.chain
    }

    proof fn lemma_replaces(self, before: Self, index: usize)
        requires
            before.wf(),
            index < before.slots@.len(),
            before.slots@[index as int] is Occupied,
            self.replaces(before, index),
        ensures
            self.wf(),
            self@ == before@.update(index as int, self@[index as int]),
    {
        assert(self@ =~= before@.update(index as int, self@[index as int]));
        lemma_occupied_update(before@, index as int, self@[index as int]);
        assert forall|k: int| 0 <= k < self.chain@.len() implies self.slots@[(
        #[trigger] self.chain@[k]) as int] == Slot::<T>::Vacant(self.link(k + 1)) by {
            assert(before.slots@[before.chain@[k] as int] is Vacant);
        }
        assert forall|i: int|
            0 <= i < self.slots@.len() && (#[trigger] self.slots@[i])
                is Vacant implies self.chain@.contains(i as usize) by {
            assert(before.slots@[i] is Vacant);
        }
    }
}

impl<T> Colo<T> {
    /// The number of slots that can be used without another allocation.
    #[inline]
    pub fn capacity(&self) -> (r: usize)
        requires
            self.wf(),
        ensures
            r >= self@.len(),
    {
        vec_capacity(&self.slots)
    }

    /// How many slots there are, occupied or vacant.
    pub fn slot_count(&self) -> (r: usize)
        requires
            self.wf(),
        ensures
            r == self@.len(),
    {
        self.slots.len()
    }

    /// Exchanges the objects of the occupied slots `a` and `b`.
    #[inline]
    pub fn swap(&mut self, a: usize, b: usize)
        requires
            old(self).wf(),
            a < old(self)@.len(),
            b < old(self)@.len(),
            old(self)@[a as int] is Some,
            old(self)@[b as int] is Some,
        ensures
            final(self).wf(),
            final(self).limit() == old(self).limit(),
            final(self).vacancies() == old(self).vacancies(),
            final(self)@ == old(self)@.update(a as int, old(self)@[b as int]).update(
                b as int,
                old(self)@[a as int],
            ),
    {
        let ghost before = *self;
        if a != b {
            let low: usize = if a < b { a } else { b };
            let high: usize = if a < b { b } else { a };
            exchange(&mut self.slots, low, high);
            proof {
                self.lemma_exchanges(before, low, high);
            }
        }
        assert(self@ =~= before@.update(a as int, before@[b as int]).update(
            b as int,
            before@[a as int],
        ));
    }

    /// The object of the occupied slot `index`.
    #[inline]
    pub fn index(&self, index: usize) -> (r: &T)
        requires
            self.wf(),
            index < self@.len(),
            self@[index as int] is Some,
        ensures
            Some(*r) == self@[index as int],
    {
        self.get(index).unwrap()
    }

    /// The object of the occupied slot `index`, for changing it.
    #[inline]
    pub fn index_mut(&mut self, index: usize) -> (r: &mut T)
        requires
            old(self).wf(),
            index < old(self)@.len(),
            old(self)@[index as int] is Some,
        ensures
            final(self).wf(),
            final(self).limit() == old(self).limit(),
            final(self).vacancies() == old(self).vacancies(),
            Some(*r) == old(self)@[index as int],
            final(self)@ == old(self)@.update(index as int, Some(*final(r))),
    {
        self.get_mut(index).unwrap()
    }

    /// Makes room for `additional` further objects. The allocator gives at least that much;
    /// [`Colo::capacity`] tells how much it gave. What the collection holds stays as it is.
    pub fn reserve(&mut self, additional: usize)
        requires
            old(self).wf(),
            occupied(old(self)@) + additional > old(self)@.len() ==> Self::fits(
                occupied(old(self)@) + additional as nat,
            ),
        ensures
            final(self).wf(),
            final(self)@ == old(self)@,
            final(self).vacancies() == old(self).vacancies(),
            final(self).limit() == old(self).limit(),
    {
        proof {
            lemma_occupied_bounds(self@);
        }
        let vacant: usize = self.slots.len() - self.len;
        if additional > vacant {
            self.slots.reserve(additional - vacant);
        }
    }

    /// So many slots are no larger than the machine allows.
    pub closed spec fn fits(slots: nat) -> bool {
        slots <= usize::MAX && slots * vstd::layout::size_of::<Slot<T>>() <= isize::MAX
    }

    /// Whether so many slots are no larger than the machine allows.
    pub fn can_hold(slots: usize) -> (r: bool)
        ensures
            r == Self::fits(slots as nat),
    {
        let size: usize = core::mem::size_of::<Slot<T>>();
        let most: usize = isize::MAX as usize;
        if size == 0 {
            return true;
        }
        proof {
            let (n, s, m) = (slots as int, size as int, most as int);
            assert((n * s <= m) == (n <= m / s)) by (nonlinear_arith)
                requires
                    s > 0,
                    n >= 0,
                    m >= 0,
            ;
        }
        slots <= most / size
    }

    /// Makes room for `additional` further objects, and for no more than that as far as the
    /// allocator allows; [`Colo::capacity`] tells how much room it gave. What the collection holds
    /// stays as it is.
    #[verifier::spinoff_prover]
    #[verifier::rlimit(40)]
    pub fn reserve_exact(&mut self, additional: usize)
        requires
            old(self).wf(),
            occupied(old(self)@) + additional > old(self)@.len() ==> Self::fits(
                occupied(old(self)@) + additional as nat,
            ),
        ensures
            final(self).wf(),
            final(self)@ == old(self)@,
            final(self).vacancies() == old(self).vacancies(),
            final(self).limit() == old(self).limit(),
    {
        proof {
            lemma_occupied_bounds(self@);
        }
        let vacant: usize = self.slots.len() - self.len;
        if additional > vacant {
            vec_reserve_exact(&mut self.slots, additional - vacant);
        }
    }

    pub fn shrink_to_fit(&mut self)
        requires
            old(self).wf(),
        ensures
            final(self).wf(),
            final(self)@ == old(self)@,
            final(self).vacancies() == old(self).vacancies(),
            final(self).limit() == old(self).limit(),
    {
        vec_shrink_to_fit(&mut self.slots);
    }

    proof fn lemma_exchanges(self, before: Self, low: usize, high: usize)
        requires
            before.wf(),
            low < high < before.slots@.len(),
            before.slots@[low as int] is Occupied,
            before.slots@[high as int] is Occupied,
            self.slots@ == before.slots@.update(low as int, before.slots@[high as int]).update(
                high as int,
                before.slots@[low as int],
            ),
            self.limited == before.limited,
            self.len == before.len,
            self.head == before.head,
            self.chain == before.chain,
        ensures
            self.wf(),
    {
        let mid = before@.update(low as int, before@[high as int]);
        assert(self@ =~= mid.update(high as int, before@[low as int]));
        lemma_occupied_update(before@, low as int, before@[high as int]);
        lemma_occupied_update(mid, high as int, before@[low as int]);
        assert forall|k: int| 0 <= k < self.chain@.len() implies self.slots@[(
        #[trigger] self.chain@[k]) as int] == Slot::<T>::Vacant(self.link(k + 1)) by {
            assert(before.slots@[before.chain@[k] as int] is Vacant);
        }
        assert forall|i: int|
            0 <= i < self.slots@.len() && (#[trigger] self.slots@[i])
                is Vacant implies self.chain@.contains(i as usize) by {
            assert(before.slots@[i] is Vacant);
        }
    }

    /// Walks over the objects, with their slots, in ascending order of the slots; they may be
    /// changed.
    pub fn iter_mut(&mut self) -> (r: IterMut<'_, T>)
        requires
            old(self).wf(),
        ensures
            final(self).wf(),
            final(self).limit() == old(self).limit(),
            final(self).vacancies() == old(self).vacancies(),
            final(self)@.len() == old(self)@.len(),
            r.wf(),
            r.position() == 0,
            r.total() == old(self)@.len(),
            forall|i: int|
                0 <= i < old(self)@.len() ==> match old(self)@[i] {
                    Some(object) => {
                        &&& #[trigger] r.slot(i) matches Some(lent)
                        &&& *lent == object
                        &&& final(self)@[i] == Some(*final(lent))
                    },
                    None => r.slot(i) is None && final(self)@[i] is None,
                },
    {
        let ghost before = *self;
        proof {
            assert forall|after: Self| after.refills(before) implies #[trigger] after.wf() by {
                after.lemma_refills(before);
            }
        }
        let total: usize = self.slots.len();
        IterMut { reversed: lend_all(self.slots.as_mut_slice()), total }
    }

    /// `self` is `before`, possibly with other objects in the occupied slots.
    spec fn refills(self, before: Self) -> bool {
        &&& self.slots@.len() == before.slots@.len()
        &&& forall|i: int|
            0 <= i < self.slots@.len() ==> match before.slots@[i] {
                Slot::Vacant(next) => #[trigger] self.slots@[i] == Slot::<T>::Vacant(next),
                Slot::Occupied(_) => self.slots@[i] is Occupied,
            }
        &&& self.limited == before.limited
        &&& self.len == before.len
        &&& self.head == before.head
        &&& self.chain == before.chain
    }

    proof fn lemma_refills(self, before: Self)
        requires
            before.wf(),
            self.refills(before),
        ensures
            self.wf(),
    {
        lemma_occupied_alike(self@, before@);
        assert forall|k: int| 0 <= k < self.chain@.len() implies self.slots@[(
        #[trigger] self.chain@[k]) as int] == Slot::<T>::Vacant(self.link(k + 1)) by {
            assert(before.slots@[before.chain@[k] as int] == Slot::<T>::Vacant(before.link(k + 1)));
        }
        assert forall|i: int|
            0 <= i < self.slots@.len() && (#[trigger] self.slots@[i])
                is Vacant implies self.chain@.contains(i as usize) by {
            assert(before.slots@[i] is Vacant);
        }
    }


    /// Walks over the objects in ascending order of their slots.
    #[inline]
    pub fn iter(&self) -> (r: Iter<'_, T>)
        requires
            self.wf(),
        ensures
            r.wf(),
            r.rest() == entries(self@, 0),
    {
        let r = Iter { slots: self.slots.as_slice(), index: 0 };
        assert(r.objects().skip(0) =~= self@);
        r
    }

    /// Walks over the objects in ascending order of their slots, and gives them away.
    #[inline]
    pub fn into_iter(self) -> (r: IntoIter<T>)
        requires
            self.wf(),
        ensures
            r.wf(),
            r.rest() == entries(self@, 0),
    {
        let ghost objects = self@;
        let mut slots = self.slots;
        let mut reversed: Vec<Slot<T>> = Vec::new();
        let ghost all = slots@;
        while slots.len() > 0
            invariant
                slots@ + reversed@.reverse() == all,
            decreases slots@.len(),
        {
            let ghost before = slots@;
            let ghost done = reversed@;
            match slots.pop() {
                Some(slot) => {
                    reversed.push(slot);
                    proof {
                        assert(reversed@.reverse() =~= seq![slot] + done.reverse());
                        assert(slots@ + reversed@.reverse() =~= before + done.reverse());
                    }
                },
                None => {},
            }
        }
        let total = reversed.len();
        let r = IntoIter { reversed, total };
        proof {
            assert(r.reversed@.reverse() =~= all);
            assert(r.objects() =~= objects);
        }
        r
    }

    /// The collection that holds `items` in the slots from 0 on.
    pub fn from_vec(items: Vec<T>) -> (r: Self)
        ensures
            r.wf(),
            r@ == Seq::new(items@.len(), |i: int| Some(items@[i])),
            r.vacancies() == Seq::<usize>::empty(),
            r.limit() == 0,
    {
        let mut colo = Colo::new();
        let ghost all = items@;
        let mut reversed: Vec<T> = Vec::new();
        let mut items = items;
        while items.len() > 0
            invariant
                items@ + reversed@.reverse() == all,
            decreases items@.len(),
        {
            let ghost before = items@;
            let ghost done = reversed@;
            match items.pop() {
                Some(item) => {
                    reversed.push(item);
                    proof {
                        assert(reversed@.reverse() =~= seq![item] + done.reverse());
                        assert(items@ + reversed@.reverse() =~= before + done.reverse());
                    }
                },
                None => {},
            }
        }
        assert(reversed@.reverse() =~= all);
        while reversed.len() > 0
            invariant
                colo.wf(),
                colo.limit() == 0,
                colo.vacancies() == Seq::<usize>::empty(),
                colo@.len() + reversed@.len() == all.len(),
                colo@ == Seq::new(colo@.len(), |i: int| Some(all[i])),
                reversed@.reverse() == all.skip(colo@.len() as int),
            decreases reversed@.len(),
        {
            let ghost rev = reversed@;
            let ghost was = colo@;
            match reversed.pop() {
                Some(item) => {
                    proof {
                        colo.lemma_vacancies();
                        assert(item == rev.reverse()[0]);
                        assert(item == all[was.len() as int]);
                        assert(colo.slots@.len() == colo.slots.len());
                    }
                    colo.insert(item);
                    proof {
                        assert(colo@ =~= Seq::new(colo@.len(), |i: int| Some(all[i])));
                        assert(reversed@.reverse() =~= rev.reverse().drop_first());
                        assert(reversed@.reverse() =~= all.skip(colo@.len() as int));
                    }
                },
                None => {},
            }
        }
        assert(colo@ =~= Seq::new(all.len(), |i: int| Some(all[i])));
        colo
    }
}

/// Exchanges two elements of a vector.
fn exchange<T>(v: &mut Vec<T>, low: usize, high: usize)
    requires
        low < high < old(v)@.len(),
    ensures
        final(v)@ == old(v)@.update(low as int, old(v)@[high as int]).update(
            high as int,
            old(v)@[low as int],
        ),
{
    let (l, r) = v.as_mut_slice().split_at_mut(high);
    core::mem::swap(&mut l[low], &mut r[0]);
}

/// The walk of [`Colo::iter`].
pub struct Iter<'a, T> {
    slots: &'a [Slot<T>],
    index: usize,
}

impl<'a, T> Iter<'a, T> {
    closed spec fn objects(&self) -> Seq<Option<T>> {
        Seq::new(self.slots@.len(), |i: int| self.slots@[i].object())
    }

    pub closed spec fn wf(&self) -> bool {
        self.index <= self.slots@.len()
    }

    /// What is still to come.
    pub closed spec fn rest(&self) -> Seq<(usize, T)> {
        entries(self.objects().skip(self.index as int), self.index as nat)
    }

    #[inline]
    pub fn next(&mut self) -> (r: Option<(usize, &'a T)>)
        requires
            old(self).wf(),
        ensures
            final(self).wf(),
            old(self).rest().len() == 0 ==> r is None && final(self).rest() == old(self).rest(),
            old(self).rest().len() > 0 ==> {
                &&& r matches Some(entry) && (entry.0, *entry.1) == old(self).rest()[0]
                &&& final(self).rest() == old(self).rest().drop_first()
            },
    {
        let ghost all = self.objects();
        let ghost todo = self.rest();
        while self.index < self.slots.len()
            invariant
                self.wf(),
                self.objects() == all,
                self.rest() == todo,
                todo == old(self).rest(),
            decreases self.slots@.len() - self.index,
        {
            let i = self.index;
            self.index = i + 1;
            match &self.slots[i] {
                Slot::Occupied(object) => {
                    proof {
                        assert(all.skip(i as int)[0] == Some(*object));
                        assert(all.skip(i as int).drop_first() =~= all.skip(i + 1));
                        assert(self.rest() =~= todo.drop_first());
                    }
                    return Some((i, object));
                },
                Slot::Vacant(_) => {
                    assert(all.skip(i as int)[0] is None);
                    assert(all.skip(i as int).drop_first() =~= all.skip(i + 1));
                },
            }
        }
        None
    }
}

/// The walk of [`Colo::iter_mut`].
pub struct IterMut<'a, T> {
    /// What the slots that are still to come hold, the last slot first.
    reversed: Vec<Option<&'a mut T>>,
    total: usize,
}

impl<'a, T> IterMut<'a, T> {
    /// The slot that is to come next.
    pub closed spec fn position(&self) -> int {
        self.total - self.reversed@.len()
    }

    /// How many slots there are.
    pub closed spec fn total(&self) -> nat {
        self.total as nat
    }

    pub open spec fn wf(&self) -> bool {
        0 <= self.position() <= self.total()
    }

    /// What the slot `i`, which is still to come, holds.
    pub closed spec fn slot(&self, i: int) -> Option<&'a mut T> {
        self.reversed@[self.total - 1 - i]
    }

    #[inline]
    pub fn next(&mut self) -> (r: Option<(usize, &'a mut T)>)
        requires
            old(self).wf(),
        ensures
            final(self).wf(),
            final(self).total() == old(self).total(),
            old(self).position() <= final(self).position(),
            forall|i: int|
                final(self).position() <= i < old(self).total() ==> #[trigger] final(self).slot(i)
                    == old(self).slot(i),
            match r {
                Some((index, object)) => {
                    &&& old(self).position() <= index
                    &&& index + 1 == final(self).position()
                    &&& old(self).slot(index as int) matches Some(lent)
                    &&& *object == *lent
                    &&& *final(object) == *final(lent)
                    &&& forall|i: int|
                        old(self).position() <= i < index ==> #[trigger] old(self).slot(i) is None
                },
                None => {
                    &&& final(self).position() == old(self).total()
                    &&& forall|i: int|
                        old(self).position() <= i < old(self).total() ==> #[trigger] old(self).slot(
                            i,
                        ) is None
                },
            },
    {
        while self.reversed.len() > 0
            invariant
                self.wf(),
                self.total == old(self).total,
                old(self).position() <= self.position(),
                forall|i: int|
                    self.position() <= i < old(self).total() ==> #[trigger] self.slot(i) == old(self).slot(i),
                forall|i: int|
                    old(self).position() <= i < self.position() ==> #[trigger] old(self).slot(i)
                        is None,
            decreases self.reversed@.len(),
        {
            let index: usize = self.total - self.reversed.len();
            assert(self.slot(index as int) == self.reversed@.last());
            assert(self.slot(index as int) == old(self).slot(index as int));
            let ghost before = *self;
            let next = self.reversed.pop();
            assert forall|i: int| index < i < old(self).total() implies #[trigger] self.slot(i)
                == old(self).slot(i) by {
                assert(before.slot(i) == old(self).slot(i));
                assert(self.slot(i) == before.slot(i));
            }
            match next {
                Some(Some(object)) => return Some((index, object)),
                _ => {},
            }
        }
        None
    }
}

/// Lends out every object, that of the last slot first.
fn lend_all<'a, T>(slots: &'a mut [Slot<T>]) -> (r: Vec<Option<&'a mut T>>)
    ensures
        r@.len() == old(slots)@.len(),
        final(slots)@.len() == old(slots)@.len(),
        forall|i: int|
            #![trigger old(slots)@[i]]
            #![trigger final(slots)@[i]]
            0 <= i < r@.len() ==> {
                let lent = r@[r@.len() - 1 - i];
                match old(slots)@[i] {
                    Slot::Vacant(next) => {
                        &&& lent is None
                        &&& final(slots)@[i] == Slot::<T>::Vacant(next)
                    },
                    Slot::Occupied(object) => {
                        &&& lent is Some
                        &&& *(lent->0) == object
                        &&& final(slots)@[i] == Slot::<T>::Occupied(*final(lent->0))
                    },
                }
            },
{
    let mut lent: Vec<Option<&'a mut T>> = Vec::new();
    let ghost end = final(slots)@;
    let mut rest: &'a mut [Slot<T>] = slots;
    while rest.len() > 0
        invariant
            rest@.len() + lent@.len() == old(slots)@.len(),
            rest@ == old(slots)@.take(rest@.len() as int),
            end.len() == final(rest)@.len() + lent@.len(),
            end.take(final(rest)@.len() as int) == final(rest)@,
            forall|k: int|
                0 <= k < lent@.len() ==> match old(slots)@[old(slots)@.len() - 1 - k] {
                    Slot::Vacant(next) => {
                        &&& #[trigger] lent@[k] is None
                        &&& end[end.len() - 1 - k] == Slot::<T>::Vacant(next)
                    },
                    Slot::Occupied(object) => {
                        &&& lent@[k] is Some
                        &&& *(lent@[k]->0) == object
                        &&& end[end.len() - 1 - k] == Slot::<T>::Occupied(
                            *final(lent@[k]->0),
                        )
                    },
                },
        decreases rest@.len(),
    {
        let i: usize = rest.len() - 1;
        let ghost whole = final(rest)@;
        let (front, last) = rest.split_at_mut(i);
        let ghost part = final(last)@;
        assert(last@[0] == old(slots)@[i as int]);
        match &mut last[0] {
            Slot::Occupied(object) => lent.push(Some(object)),
            Slot::Vacant(_) => lent.push(None),
        }
        rest = front;
        assert(end[end.len() - lent@.len()] == whole[final(rest)@.len() as int]);
        assert(part.len() == 1);
        assert(end.take(final(rest)@.len() as int) =~= final(rest)@);
    }
    lent
}

/// The walk of [`Colo::into_iter`].
pub struct IntoIter<T> {
    reversed: Vec<Slot<T>>,
    total: usize,
}

impl<T> IntoIter<T> {
    /// The slots that are still to come.
    closed spec fn objects(&self) -> Seq<Option<T>> {
        Seq::new(self.reversed@.len(), |i: int| self.reversed@.reverse()[i].object())
    }

    pub closed spec fn wf(&self) -> bool {
        self.reversed@.len() <= self.total
    }

    /// What is still to come.
    pub closed spec fn rest(&self) -> Seq<(usize, T)> {
        entries(self.objects(), (self.total - self.reversed@.len()) as nat)
    }

    #[inline]
    pub fn next(&mut self) -> (r: Option<(usize, T)>)
        requires
            old(self).wf(),
        ensures
            final(self).wf(),
            old(self).rest().len() == 0 ==> r is None && final(self).rest() == old(self).rest(),
            old(self).rest().len() > 0 ==> {
                &&& r == Some(old(self).rest()[0])
                &&& final(self).rest() == old(self).rest().drop_first()
            },
    {
        let ghost todo = self.rest();
        while self.reversed.len() > 0
            invariant
                self.wf(),
                self.rest() == todo,
                todo == old(self).rest(),
            decreases self.reversed@.len(),
        {
            let i: usize = self.total - self.reversed.len();
            let ghost before = *self;
            match self.reversed.pop() {
                Some(slot) => {
                    proof {
                        assert(before.objects()[0] == slot.object());
                        assert(before.objects().drop_first() =~= self.objects());
                    }
                    match slot {
                        Slot::Occupied(object) => {
                            assert(self.rest() =~= todo.drop_first());
                            return Some((i, object));
                        },
                        Slot::Vacant(_) => {},
                    }
                },
                None => {},
            }
        }
        None
    }
}

impl<T> Default for Colo<T> {
    fn default() -> (r: Self)
        ensures
            r.wf(),
            r@ == Seq::<Option<T>>::empty(),
            r.vacancies() == Seq::<usize>::empty(),
            r.limit() == 0,
    {
        Colo::new()
    }
}

impl<T: Clone> Clone for Colo<T> {
    /// The copy has a clone of each object in the same slot, and the same vacant slots in the
    /// same order.
    fn clone(&self) -> (r: Self)
        ensures
            self.wf() ==> r.wf(),
            r.limit() == self.limit(),
            r.vacancies() == self.vacancies(),
            r@.len() == self@.len(),
            forall|i: int| 0 <= i < self@.len() ==> match #[trigger] self@[i] {
                None => r@[i] is None,
                Some(object) => r@[i] matches Some(copy) && cloned(object, copy),
            },
    {
        let mut slots: Vec<Slot<T>> = Vec::with_capacity(self.slots.len());
        for i in 0..self.slots.len()
            invariant
                slots@.len() == i,
                forall|j: int| 0 <= j < i ==> match self.slots@[j] {
                    Slot::Vacant(next) => #[trigger] slots@[j] == Slot::<T>::Vacant(next),
                    Slot::Occupied(object) => slots@[j] matches Slot::Occupied(copy) && cloned(
                        object,
                        copy,
                    ),
                },
        {
            let slot = match &self.slots[i] {
                Slot::Vacant(next) => Slot::Vacant(*next),
                Slot::Occupied(object) => Slot::Occupied(object.clone()),
            };
            slots.push(slot);
        }
        let r = Colo {
            slots,
            limited: self.limited,
            len: self.len,
            head: self.head,
            chain: Ghost(self.chain@),
        };
        proof {
            if self.wf() {
                lemma_occupied_alike(self@, r@);
                assert forall|k: int| 0 <= k < r.chain@.len() implies r.slots@[(
                #[trigger] r.chain@[k]) as int] == Slot::<T>::Vacant(r.link(k + 1)) by {
                    assert(self.slots@[self.chain@[k] as int] is Vacant);
                }
                assert forall|i: int|
                    0 <= i < r.slots@.len() && (#[trigger] r.slots@[i])
                        is Vacant implies r.chain@.contains(i as usize) by {
                    assert(self.slots@[i] is Vacant);
                }
            }
        }
        r
    }
}

proof fn lemma_occupied_alike<T>(a: Seq<Option<T>>, b: Seq<Option<T>>)
    requires
        a.len() == b.len(),
        forall|i: int| 0 <= i < a.len() ==> ((#[trigger] a[i]) is Some) == (b[i] is Some),
    ensures
        occupied(a) == occupied(b),
    decreases a.len(),
{
    if a.len() > 0 {
        assert forall|i: int| 0 <= i < a.len() - 1 implies ((#[trigger] a.drop_last()[i]) is Some)
            == (b.drop_last()[i] is Some) by {
            assert((a[i] is Some) == (b[i] is Some));
        }
        lemma_occupied_alike(a.drop_last(), b.drop_last());
        assert((a[a.len() - 1] is Some) == (b[a.len() - 1] is Some));
    }
}

/// Calls `Vec::capacity`, which gives the number of elements that the vector can hold without
/// reallocating; it is at least the number that it holds.
#[verifier::external_body]
pub(crate) fn vec_capacity<T>(v: &Vec<T>) -> (r: usize)
    ensures
        r >= v@.len(),
{
    v.capacity()
}

/// Calls `Vec::reserve_exact`, which leaves the elements as they are. It panics if there would be
/// room for more bytes than an `isize` counts. Nothing is said of the capacity afterwards, which is
/// the allocator's and no part of what a vector holds.
#[verifier::external_body]
fn vec_reserve_exact<T>(v: &mut Vec<T>, additional: usize)
    requires
        old(v)@.len() + additional <= usize::MAX,
        (old(v)@.len() + additional) * vstd::layout::size_of::<T>() <= isize::MAX,
    ensures
        final(v)@ == old(v)@,
{
    v.reserve_exact(additional)
}

/// Calls `Vec::shrink_to_fit`, which leaves the elements as they are. Nothing is said of the
/// capacity afterwards, which is the allocator's.
#[verifier::external_body]
pub(crate) fn vec_shrink_to_fit<T>(v: &mut Vec<T>)
    ensures
        final(v)@ == old(v)@,
{
    v.shrink_to_fit()
}

/// The slots below `n` that held an object in `was` and hold none in `is`, the highest first.
pub open spec fn vacated<T>(was: Seq<Option<T>>, is: Seq<Option<T>>, n: nat) -> Seq<usize>
    decreases n,
{
    if n == 0 {
        Seq::empty()
    } else {
        let lower = vacated(was, is, (n - 1) as nat);
        if was[n - 1] is Some && is[n - 1] is None {
            seq![(n - 1) as usize] + lower
        } else {
            lower
        }
    }
}

proof fn lemma_vacated_same<T>(
    was: Seq<Option<T>>,
    is: Seq<Option<T>>,
    other: Seq<Option<T>>,
    n: nat,
)
    requires
        forall|j: int| 0 <= j < n ==> is[j] == other[j],
    ensures
        vacated(was, is, n) == vacated(was, other, n),
    decreases n,
{
    if n > 0 {
        lemma_vacated_same(was, is, other, (n - 1) as nat);
    }
}

proof fn lemma_none_occupied<T>(slots: Seq<Option<T>>)
    requires
        forall|i: int| 0 <= i < slots.len() ==> (#[trigger] slots[i]) is None,
    ensures
        occupied(slots) == 0,
    decreases slots.len(),
{
    if slots.len() > 0 {
        let front = slots.drop_last();
        assert forall|i: int| 0 <= i < front.len() implies (#[trigger] front[i]) is None by {
            assert(slots[i] is None);
        }
        lemma_none_occupied(front);
        assert(slots[slots.len() - 1] is None);
    }
}

/// What is inserted is what is removed again, the others stay as they were, and the slot is the
/// next one to be used.
pub proof fn law_given_back<T>(
    before: Colo<T>,
    object: T,
    index: usize,
    between: Colo<T>,
    r: Option<T>,
    after: Colo<T>,
)
    requires
        before.wf(),
        !before.at_limit(),
        before.inserts(object, index, &between),
        between.removes(index, r, &after),
    ensures
        r == Some(object),
        after@ == (if index < before@.len() {
            before@.update(index as int, None)
        } else {
            before@.push(None)
        }),
        after.next_slot() == index,
        before.vacancies().len() > 0 ==> after.vacancies() == before.vacancies(),
{
    assert(after.vacancies()[0] == index);
    if index < before@.len() {
        assert(after@ =~= before@.update(index as int, None));
    } else {
        assert(after@ =~= before@.push(None));
    }
    if before.vacancies().len() > 0 {
        assert(after.vacancies() =~= before.vacancies());
    }
}

/// An object that is taken in is found under its number, which no other object has, and the others
/// keep theirs. One more is held, and never more than the limit.
pub proof fn law_inserted<T>(before: Colo<T>, object: T, index: usize, after: Colo<T>)
    requires
        before.wf(),
        before.inserts(object, index, &after),
    ensures
        before.limit() == 0 || occupied(before@) < before.limit() ==> {
            &&& index < after@.len()
            &&& after@[index as int] == Some(object)
            &&& index < before@.len() ==> before@[index as int] is None
            &&& occupied(after@) == occupied(before@) + 1
            &&& forall|i: int| 0 <= i < before@.len() && i != index ==> after@[i] == before@[i]
        },
        before.limit() > 0 && occupied(before@) <= before.limit() ==> occupied(after@)
            <= before.limit(),
        before.limit() > 0 && occupied(before@) == before.limit() ==> after@ == before@,
        after.limit() == before.limit(),
        after@.len() <= before@.len() + 1,
        after@.len() > before@.len() ==> occupied(before@) == before@.len(),
{
    before.lemma_vacancies();
    if !before.at_limit() {
        if index == before@.len() {
            lemma_occupied_push(before@, Some(object));
        } else {
            lemma_occupied_update(before@, index as int, Some(object));
        }
    }
}

/// An object that is removed comes out and is found no longer, and the others keep their numbers.
/// A number under which nothing is found gives nothing and changes nothing.
pub proof fn law_removed<T>(before: Colo<T>, index: usize, r: Option<T>, after: Colo<T>)
    requires
        before.wf(),
        before.removes(index, r, &after),
    ensures
        r == (if index < before@.len() {
            before@[index as int]
        } else {
            None
        }),
        after@.len() == before@.len(),
        index < after@.len() ==> after@[index as int] is None,
        forall|i: int| 0 <= i < before@.len() && i != index ==> after@[i] == before@[i],
        occupied(after@) == occupied(before@) - (if r is Some {
            1int
        } else {
            0
        }),
        r is None ==> after@ == before@ && after.vacancies() == before.vacancies(),
{
    if index < before@.len() && before@[index as int] is Some {
        lemma_occupied_update(before@, index as int, None);
    }
}

/// Of two numbers that were given back one after the other, the later is handed out first.
pub proof fn law_last_vacated_first<T>(
    before: Colo<T>,
    a: usize,
    ra: Option<T>,
    mid: Colo<T>,
    b: usize,
    rb: Option<T>,
    after: Colo<T>,
    x: T,
    i: usize,
    next: Colo<T>,
    y: T,
    j: usize,
    last: Colo<T>,
)
    requires
        before.wf(),
        before.removes(a, ra, &mid),
        mid.removes(b, rb, &after),
        ra is Some,
        rb is Some,
        before.limit() == 0 || occupied(before@) <= before.limit(),
        after.inserts(x, i, &next),
        next.inserts(y, j, &last),
    ensures
        i == b,
        j == a,
        last@ == before@.update(b as int, Some(x)).update(a as int, Some(y)),
        last.vacancies() == before.vacancies(),
{
    law_removed(before, a, ra, mid);
    law_removed(mid, b, rb, after);
    assert(after.vacancies()[0] == b);
    assert(after.vacancies()[1] == a);
    law_inserted(after, x, i, next);
    assert(next.vacancies()[0] == a);
    assert(last@ =~= before@.update(b as int, Some(x)).update(a as int, Some(y)));
    assert(last.vacancies() =~= before.vacancies());
}

/// The list of the objects holds each one with its number, nothing else and nothing twice, and the
/// numbers ascend.
pub proof fn law_entries<T>(slots: Seq<Option<T>>, base: nat)
    requires
        base + slots.len() <= usize::MAX,
    ensures
        entries(slots, base).len() == occupied(slots),
        forall|k: int|
            0 <= k < entries(slots, base).len() ==> {
                let (number, object) = #[trigger] entries(slots, base)[k];
                base <= number < base + slots.len() && slots[number - base] == Some(object)
            },
        forall|k: int, l: int|
            0 <= k < l < entries(slots, base).len() ==> (#[trigger] entries(slots, base)[k]).0 < (
            #[trigger] entries(slots, base)[l]).0,
        forall|i: int|
            0 <= i < slots.len() && (#[trigger] slots[i]) is Some ==> exists|k: int|
                0 <= k < entries(slots, base).len() && (#[trigger] entries(slots, base)[k]).0 == base
                    + i,
    decreases slots.len(),
{
    if slots.len() > 0 {
        let rest = slots.drop_first();
        let later = entries(rest, base + 1);
        let all = entries(slots, base);
        law_entries(rest, base + 1);
        lemma_occupied_first(slots);
        let shift: int = if slots[0] is Some {
            1
        } else {
            0
        };
        assert(all.len() == later.len() + shift);
        assert forall|k: int| 0 <= k < all.len() implies {
            let (number, object) = #[trigger] all[k];
            base <= number < base + slots.len() && slots[number - base] == Some(object)
        } by {
            if k >= shift {
                assert(all[k] == later[k - shift]);
                assert(rest[later[k - shift].0 - (base + 1)] == slots[all[k].0 - base]);
            }
        }
        assert forall|k: int, l: int| 0 <= k < l < all.len() implies (#[trigger] all[k]).0 < (
        #[trigger] all[l]).0 by {
            assert(all[l] == later[l - shift]);
            if k >= shift {
                assert(all[k] == later[k - shift]);
            }
        }
        assert forall|i: int| 0 <= i < slots.len() && (#[trigger] slots[i]) is Some implies exists|
            k: int,
        |
            0 <= k < all.len() && (#[trigger] all[k]).0 == base + i by {
            if i == 0 {
                assert(all[0].0 == base);
            } else {
                assert(rest[i - 1] is Some);
                let k = choose|k: int|
                    0 <= k < later.len() && (#[trigger] later[k]).0 == base + 1 + (i - 1);
                assert(all[k + shift] == later[k]);
            }
        }
    }
}

proof fn lemma_occupied_first<T>(slots: Seq<Option<T>>)
    requires
        slots.len() > 0,
    ensures
        occupied(slots) == occupied(slots.drop_first()) + (if slots[0] is Some {
            1int
        } else {
            0
        }),
    decreases slots.len(),
{
    if slots.len() == 1 {
        assert(occupied(slots.drop_first()) == 0);
        assert(occupied(slots.drop_last()) == 0);
    } else {
        lemma_occupied_first(slots.drop_last());
        assert(slots.drop_last().drop_first() =~= slots.drop_first().drop_last());
        assert(slots.drop_first().last() == slots.last());
        assert(slots.drop_last()[0] == slots[0]);
    }
}

/// The slots that are told to have been vacated are those that held an object and hold none, each
/// told once, and the higher ones first.
pub proof fn law_vacated<T>(was: Seq<Option<T>>, is: Seq<Option<T>>, n: nat)
    requires
        n <= was.len(),
        n <= is.len(),
        n <= usize::MAX,
    ensures
        forall|k: int|
            0 <= k < vacated(was, is, n).len() ==> {
                let number = #[trigger] vacated(was, is, n)[k];
                number < n && was[number as int] is Some && is[number as int] is None
            },
        forall|k: int, l: int|
            0 <= k < l < vacated(was, is, n).len() ==> #[trigger] vacated(was, is, n)[k]
                > #[trigger] vacated(was, is, n)[l],
        forall|i: int|
            0 <= i < n && (#[trigger] was[i]) is Some && is[i] is None ==> exists|k: int|
                0 <= k < vacated(was, is, n).len() && #[trigger] vacated(was, is, n)[k] == i,
    decreases n,
{
    if n > 0 {
        law_vacated(was, is, (n - 1) as nat);
        let lower = vacated(was, is, (n - 1) as nat);
        let all = vacated(was, is, n);
        let shift: int = if was[n - 1] is Some && is[n - 1] is None {
            1
        } else {
            0
        };
        assert(all.len() == lower.len() + shift);
        assert(forall|k: int| shift <= k < all.len() ==> #[trigger] all[k] == lower[k - shift]);
        assert forall|i: int|
            0 <= i < n && (#[trigger] was[i]) is Some && is[i] is None implies exists|k: int|
            0 <= k < all.len() && #[trigger] all[k] == i by {
            if i == n - 1 {
                assert(all[0] == i);
            } else {
                let k = choose|k: int| 0 <= k < lower.len() && #[trigger] lower[k] == i;
                assert(all[k + shift] == lower[k]);
            }
        }
    }
}

} // verus!
