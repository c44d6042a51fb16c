//! A list of sleepers, each under a number, of whom one at a time is woken up.

use vstd::prelude::*;
use crate::task::Waker;

verus! {

/// A list of sleepers.
#[derive(Debug)]
pub struct Sleeper {
    count: usize,
    wakers: Vec<(usize, Waker)>,
    free_ids: Vec<usize>,
}

/// The place of the last waker in `wakers` with the number `id`, or -1 where there is none.
pub open spec fn last_place(wakers: Seq<(usize, Waker)>, id: usize) -> int
    decreases wakers.len(),
{
    if wakers.len() == 0 {
        -1
    } else if wakers.last().0 == id {
        wakers.len() - 1
    } else {
        last_place(wakers.drop_last(), id)
    }
}

/// The place of the first waker in `wakers` with the number `id`, or the number of wakers where
/// there is none.
pub open spec fn first_place(wakers: Seq<(usize, Waker)>, id: usize) -> int
    decreases wakers.len(),
{
    if wakers.len() == 0 {
        0
    } else if wakers[0].0 == id {
        0
    } else {
        1 + first_place(wakers.drop_first(), id)
    }
}

proof fn lemma_first_place(wakers: Seq<(usize, Waker)>, id: usize, i: int)
    requires
        0 <= i <= wakers.len(),
        forall|j: int| 0 <= j < i ==> (#[trigger] wakers[j]).0 != id,
        i < wakers.len() ==> wakers[i].0 == id,
    ensures
        first_place(wakers, id) == i,
    decreases i,
{
    if i > 0 {
        let rest = wakers.drop_first();
        assert forall|j: int| 0 <= j < i - 1 implies (#[trigger] rest[j]).0 != id by {
            assert(rest[j] == wakers[j + 1]);
        }
        lemma_first_place(rest, id, i - 1);
    }
}

proof fn lemma_last_place(wakers: Seq<(usize, Waker)>, id: usize, i: int)
    requires
        0 <= i <= wakers.len(),
        forall|j: int| i <= j < wakers.len() ==> (#[trigger] wakers[j]).0 != id,
        i > 0 ==> wakers[i - 1].0 == id,
    ensures
        last_place(wakers, id) == i - 1,
    decreases wakers.len(),
{
    if i < wakers.len() {
        lemma_last_place(wakers.drop_last(), id, i);
    }
}

impl Sleeper {
    /// How many sleepers there are.
    pub closed spec fn count(&self) -> usize {
        self.count
    }

    /// The wakers of those who were not woken up yet, each with its number.
    pub closed spec fn wakers(&self) -> Seq<(usize, Waker)> {
        self.wakers@
    }

    /// The numbers that can be given out again, the next one last.
    pub closed spec fn free_ids(&self) -> Seq<usize> {
        self.free_ids@
    }

    pub fn new() -> (r: Self)
        ensures
            r.count() == 0,
            r.wakers() == Seq::<(usize, Waker)>::empty(),
            r.free_ids() == Seq::<usize>::empty(),
    {
        Sleeper { count: 0, wakers: Vec::new(), free_ids: Vec::new() }
    }

    /// Adds a sleeper; says its number.
    pub fn insert(&mut self, waker: &Waker) -> (r: usize)
        requires
            old(self).count() < usize::MAX,
        ensures
            r == next_id(old(self).count(), old(self).free_ids()),
            final(self).count() == old(self).count() + 1,
            final(self).wakers() == old(self).wakers().push((r, *waker)),
            final(self).free_ids() == (if old(self).free_ids().len() > 0 {
                old(self).free_ids().drop_last()
            } else {
                old(self).free_ids()
            }),
    {
        let id: usize = match self.free_ids.pop() {
            Some(id) => id,
            None => self.count + 1,
        };
        self.count = self.count + 1;
        self.wakers.push((id, *waker));
        id
    }

    /// Gives the sleeper `id` another waker; says whether it had been woken up.
    pub fn update(&mut self, id: usize, waker: &Waker) -> (r: bool)
        ensures
            r == (first_place(old(self).wakers(), id) == old(self).wakers().len()),
            final(self).wakers() == (if r {
                old(self).wakers().push((id, *waker))
            } else {
                old(self).wakers().update(first_place(old(self).wakers(), id), (id, *waker))
            }),
            final(self).count() == old(self).count(),
            final(self).free_ids() == old(self).free_ids(),
            // It had been woken up if its waker is not there any more; now it is there again.
            r == (forall|j: int|
                0 <= j < old(self).wakers().len() ==> (#[trigger] old(self).wakers()[j]).0 != id),
            exists|j: int|
                0 <= j < final(self).wakers().len() && #[trigger] final(self).wakers()[j] == (
                    id,
                    *waker,
                ),
            // The others keep theirs.
            forall|j: int|
                0 <= j < old(self).wakers().len() && (#[trigger] old(self).wakers()[j]).0 != id
                    ==> final(self).wakers()[j] == old(self).wakers()[j],
            final(self).wakers().len() == old(self).wakers().len() + (if r {
                1int
            } else {
                0
            }),
    {
        let mut i: usize = 0;
        while i < self.wakers.len()
            invariant
                *self == *old(self),
                i <= self.wakers@.len(),
                forall|j: int| 0 <= j < i ==> (#[trigger] self.wakers@[j]).0 != id,
            decreases self.wakers@.len() - i,
        {
            let item: (usize, Waker) = self.wakers[i];
            if item.0 == id {
                proof {
                    lemma_first_place(self.wakers@, id, i as int);
                }
                if !item.1.will_wake(waker) {
                    self.wakers.set(i, (id, *waker));
                }
                assert(self.wakers@ =~= old(self).wakers@.update(i as int, (id, *waker)));
                assert(self.wakers()[i as int] == (id, *waker));
                assert(old(self).wakers()[i as int].0 == id);
                return false;
            }
            i = i + 1;
        }
        proof {
            lemma_first_place(self.wakers@, id, i as int);
        }
        self.wakers.push((id, *waker));
        assert(self.wakers()[i as int] == (id, *waker));
        true
    }

    /// Removes the sleeper `id`; says whether it had been woken up.
    pub fn remove(&mut self, id: usize) -> (r: bool)
        requires
            old(self).count() > 0,
        ensures
            r == (last_place(old(self).wakers(), id) < 0),
            final(self).count() == old(self).count() - 1,
            final(self).free_ids() == old(self).free_ids().push(id),
            final(self).wakers() == (if r {
                old(self).wakers()
            } else {
                old(self).wakers().remove(last_place(old(self).wakers(), id))
            }),
            // It had been woken up if its waker is not there any more.
            r == (forall|j: int|
                0 <= j < old(self).wakers().len() ==> (#[trigger] old(self).wakers()[j]).0 != id),
            !r ==> final(self).wakers().len() == old(self).wakers().len() - 1,
            !r ==> exists|i: int|
                #![trigger old(self).wakers().remove(i)]
                0 <= i < old(self).wakers().len() && old(self).wakers()[i].0 == id
                    && final(self).wakers() == old(self).wakers().remove(i),
    {
        self.count = self.count - 1;
        self.free_ids.push(id);
        let mut i: usize = self.wakers.len();
        while i > 0
            invariant
                self.wakers@ == old(self).wakers@,
                self.count == old(self).count - 1,
                self.free_ids@ == old(self).free_ids@.push(id),
                i <= self.wakers@.len(),
                forall|j: int| i <= j < self.wakers@.len() ==> (#[trigger] self.wakers@[j]).0 != id,
            decreases i,
        {
            if self.wakers[i - 1].0 == id {
                proof {
                    lemma_last_place(self.wakers@, id, i as int);
                }
                assert(old(self).wakers()[i - 1].0 == id);
                self.wakers.remove(i - 1);
                assert(self.wakers() == old(self).wakers().remove(i - 1));
                return false;
            }
            i = i - 1;
        }
        proof {
            lemma_last_place(self.wakers@, id, 0);
        }
        true
    }

    /// Whether somebody was woken up and is still to be removed, or nobody sleeps.
    pub fn is_notified(&self) -> (r: bool)
        ensures
            r == (self.count() == 0 || self.count() > self.wakers().len()),
            self.wakers().len() < self.count() ==> r,
            0 < self.count() <= self.wakers().len() ==> !r,
    {
        self.count == 0 || self.count > self.wakers.len()
    }

    /// The waker of the sleeper that came last, unless somebody else is already woken up.
    pub fn notify(&mut self) -> (r: Option<Waker>)
        ensures
            r == (if old(self).wakers().len() == old(self).count() && old(self).count() > 0 {
                Some(old(self).wakers().last().1)
            } else {
                None
            }),
            final(self).wakers() == (if r is Some {
                old(self).wakers().drop_last()
            } else {
                old(self).wakers()
            }),
            final(self).count() == old(self).count(),
            final(self).free_ids() == old(self).free_ids(),
            // Now somebody is woken up, if anybody sleeps, and nobody besides those who were.
            old(self).wakers().len() <= old(self).count() && old(self).count() > 0
                ==> final(self).wakers().len() < final(self).count(),
            old(self).wakers().len() < old(self).count() ==> r is None,
            r matches Some(waker) ==> exists|i: int|
                #![trigger old(self).wakers()[i]]
                0 <= i < old(self).wakers().len() && old(self).wakers()[i].1 == waker
                    && final(self).wakers() == old(self).wakers().remove(i),
    {
        proof {
            if self.wakers@.len() > 0 {
                assert(self.wakers@.drop_last() =~= self.wakers@.remove(self.wakers@.len() - 1));
            }
        }
        if self.wakers.len() == self.count {
            match self.wakers.pop() {
                Some(item) => {
                    assert(old(self).wakers()[old(self).wakers().len() - 1] == item);
                    Some(item.1)
                },
                None => None,
            }
        } else {
            None
        }
    }
}

/// The number that the next sleeper gets.
pub open spec fn next_id(count: usize, free_ids: Seq<usize>) -> usize {
    if free_ids.len() > 0 {
        free_ids.last()
    } else {
        (count + 1) as usize
    }
}

/// That the numbers given out and those free again are all numbers from one on, each once.
pub open spec fn numbered(used: Set<usize>, count: usize, free_ids: Seq<usize>) -> bool {
    &&& used.finite()
    &&& used.len() == count
    &&& free_ids.no_duplicates()
    &&& forall|id: usize| used.contains(id) ==> !#[trigger] free_ids.contains(id)
    &&& forall|id: usize|
        #![trigger used.contains(id)]
        used.contains(id) || free_ids.contains(id) <==> 1 <= id <= count + free_ids.len()
}

/// A new sleeper gets a number that no other sleeper has.
pub proof fn law_fresh_number(used: Set<usize>, count: usize, free_ids: Seq<usize>)
    requires
        numbered(used, count, free_ids),
        count < usize::MAX,
    ensures
        ({
            let id = next_id(count, free_ids);
            &&& !used.contains(id)
            &&& numbered(
                used.insert(id),
                (count + 1) as usize,
                if free_ids.len() > 0 {
                    free_ids.drop_last()
                } else {
                    free_ids
                },
            )
        }),
{
    let id = next_id(count, free_ids);
    if free_ids.len() > 0 {
        let rest = free_ids.drop_last();
        assert(free_ids.contains(free_ids.last()));
        assert forall|x: usize| #[trigger] rest.contains(x) <==> free_ids.contains(x) && x != id by {
            if rest.contains(x) {
                let i = choose|i: int| 0 <= i < rest.len() && rest[i] == x;
                assert(free_ids[i] == x);
            }
            if free_ids.contains(x) && x != id {
                let i = choose|i: int| 0 <= i < free_ids.len() && free_ids[i] == x;
                assert(rest[i] == x);
            }
        }
        assert(count + 1 + rest.len() == count + free_ids.len());
    } else {
        assert forall|x: usize| !#[trigger] free_ids.contains(x) by {}
    }
}

/// The number of a sleeper that was removed is free again.
pub proof fn law_number_freed(used: Set<usize>, count: usize, free_ids: Seq<usize>, id: usize)
    requires
        numbered(used, count, free_ids),
        used.contains(id),
    ensures
        count > 0,
        numbered(used.remove(id), (count - 1) as usize, free_ids.push(id)),
        next_id((count - 1) as usize, free_ids.push(id)) == id,
{
    let more = free_ids.push(id);
    assert forall|i: int| 0 <= i < free_ids.len() implies #[trigger] free_ids[i] != id by {
        assert(free_ids.contains(free_ids[i]));
    }
    assert(used.len() > 0) by {
        if used.len() == 0 {
            assert(used =~= Set::empty());
        }
    }
    assert forall|x: usize| #[trigger] more.contains(x) <==> free_ids.contains(x) || x == id by {
        if free_ids.contains(x) {
            let i = choose|i: int| 0 <= i < free_ids.len() && free_ids[i] == x;
            assert(more[i] == x);
        }
        assert(more[free_ids.len() as int] == id);
    }
}

} // verus!
