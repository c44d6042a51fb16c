//! The timers that have not gone off, in the order in which they will.

use vstd::prelude::*;
use crate::task::{Nanos, Wake, Waker};

verus! {

/// A timer: when it goes off, what tells it from others that do so at the same time, and whom it
/// wakes up.
#[derive(Clone, Copy, Debug, PartialEq, Eq, Structural)]
pub struct TimerEntry {
    pub when: Nanos,
    pub id: usize,
    pub waker: Waker,
}

/// Whether a timer goes off before another one.
pub open spec fn sooner(a: (Nanos, usize), b: (Nanos, usize)) -> bool {
    a.0 < b.0 || a.0 == b.0 && a.1 < b.1
}

impl TimerEntry {
    pub open spec fn key(self) -> (Nanos, usize) {
        (self.when, self.id)
    }
}

/// Whether `entries` stand in the order in which they go off.
pub open spec fn ordered(entries: Seq<TimerEntry>) -> bool {
    forall|i: int, j: int|
        0 <= i < j < entries.len() ==> sooner(
            (#[trigger] entries[i]).key(),
            (#[trigger] entries[j]).key(),
        )
}

pub open spec fn has_key(entries: Seq<TimerEntry>, key: (Nanos, usize)) -> bool {
    exists|i: int| 0 <= i < entries.len() && (#[trigger] entries[i]).key() == key
}

pub open spec fn waker_of(entries: Seq<TimerEntry>, key: (Nanos, usize)) -> Waker {
    entries[choose|i: int| 0 <= i < entries.len() && (#[trigger] entries[i]).key() == key].waker
}

/// Whom each of `entries` wakes up.
pub open spec fn as_map(entries: Seq<TimerEntry>) -> Map<(Nanos, usize), Waker> {
    Map::new(
        |key: (Nanos, usize)| has_key(entries, key),
        |key: (Nanos, usize)| waker_of(entries, key),
    )
}

/// How many of `entries`, from the front on, were to go off before `now`.
pub open spec fn due(entries: Seq<TimerEntry>, now: Nanos) -> nat
    decreases entries.len(),
{
    if entries.len() == 0 || entries[0].when >= now {
        0
    } else {
        1 + due(entries.drop_first(), now)
    }
}

/// Whom `entries` wake up, in their order.
pub open spec fn wakes_of(entries: Seq<TimerEntry>) -> Seq<Wake> {
    Seq::new(entries.len(), |i: int| Wake::Task(entries[i].waker))
}

/// What stands in the list is in the map.
pub proof fn lemma_map_at(entries: Seq<TimerEntry>, i: int)
    requires
        ordered(entries),
        0 <= i < entries.len(),
    ensures
        as_map(entries).contains_key(entries[i].key()),
        as_map(entries)[entries[i].key()] == entries[i].waker,
{
    let key = entries[i].key();
    let j = choose|j: int| 0 <= j < entries.len() && (#[trigger] entries[j]).key() == key;
    assert(entries[i].key() == key);
    assert(j == i) by {
        if j < i {
            assert(sooner(entries[j].key(), entries[i].key()));
        }
        if i < j {
            assert(sooner(entries[i].key(), entries[j].key()));
        }
    }
}

/// Two lists with the same timers wake up the same.
proof fn lemma_same_map(entries: Seq<TimerEntry>, map: Map<(Nanos, usize), Waker>)
    requires
        ordered(entries),
        forall|i: int|
            0 <= i < entries.len() ==> map.contains_key((#[trigger] entries[i]).key())
                && map[entries[i].key()] == entries[i].waker,
        forall|key: (Nanos, usize)| #[trigger] map.contains_key(key) ==> has_key(entries, key),
    ensures
        as_map(entries) == map,
{
    assert forall|key: (Nanos, usize)| #[trigger]
        as_map(entries).contains_key(key) implies as_map(entries)[key] == map[key] by {
        let i = choose|i: int| 0 <= i < entries.len() && (#[trigger] entries[i]).key() == key;
        lemma_map_at(entries, i);
    }
    assert(as_map(entries) =~= map);
}

proof fn lemma_due(entries: Seq<TimerEntry>, now: Nanos, n: int)
    requires
        ordered(entries),
        0 <= n <= entries.len(),
        forall|i: int| 0 <= i < n ==> (#[trigger] entries[i]).when < now,
        n < entries.len() ==> entries[n].when >= now,
    ensures
        due(entries, now) == n,
    decreases n,
{
    if n > 0 {
        let rest = entries.drop_first();
        assert forall|i: int| 0 <= i < n - 1 implies (#[trigger] rest[i]).when < now by {
            assert(rest[i] == entries[i + 1]);
        }
        assert forall|i: int, j: int| 0 <= i < j < rest.len() implies sooner(
            (#[trigger] rest[i]).key(),
            (#[trigger] rest[j]).key(),
        ) by {
            assert(rest[i] == entries[i + 1] && rest[j] == entries[j + 1]);
        }
        lemma_due(rest, now, n - 1);
    }
}

/// The timers.
pub struct Timers {
    entries: Vec<TimerEntry>,
}

impl Timers {
    pub closed spec fn entries(&self) -> Seq<TimerEntry> {
        self.entries@
    }

    pub open spec fn wf(&self) -> bool {
        ordered(self.entries())
    }

    /// Whom each timer wakes up.
    pub open spec fn map(&self) -> Map<(Nanos, usize), Waker> {
        as_map(self.entries())
    }

    pub fn new() -> (r: Self)
        ensures
            r.wf(),
            r.entries() == Seq::<TimerEntry>::empty(),
            r.map() == Map::<(Nanos, usize), Waker>::empty(),
    {
        let r = Timers { entries: Vec::new() };
        assert(r.map() =~= Map::<(Nanos, usize), Waker>::empty());
        r
    }

    /// The place of the first timer that does not go off before the given one.
    fn place(&self, when: Nanos, id: usize) -> (r: usize)
        requires
            self.wf(),
        ensures
            r <= self.entries@.len(),
            forall|i: int|
                0 <= i < r ==> sooner((#[trigger] self.entries@[i]).key(), (when, id)),
            r < self.entries@.len() ==> !sooner(self.entries@[r as int].key(), (when, id)),
    {
        let mut i: usize = 0;
        while i < self.entries.len() && (self.entries[i].when < when || self.entries[i].when == when
            && self.entries[i].id < id)
            invariant
                i <= self.entries@.len(),
                forall|j: int|
                    0 <= j < i ==> sooner((#[trigger] self.entries@[j]).key(), (when, id)),
            decreases self.entries@.len() - i,
        {
            i = i + 1;
        }
        i
    }

    /// Adds a timer; one with the same time and the same number is replaced.
    pub fn insert(&mut self, when: Nanos, id: usize, waker: Waker)
        requires
            old(self).wf(),
        ensures
            final(self).wf(),
            final(self).map() == old(self).map().insert((when, id), waker),
    {
        let i = self.place(when, id);
        let entry = TimerEntry { when, id, waker };
        let ghost before = self.entries@;
        let ghost key: (Nanos, usize) = (when, id);
        if i < self.entries.len() && self.entries[i].when == when && self.entries[i].id == id {
            self.entries.set(i, entry);
        } else {
            self.entries.insert(i, entry);
        }
        proof {
            let after = self.entries@;
            let replaced = after.len() == before.len();
            let shift: int = if replaced {
                0
            } else {
                1
            };
            assert(after[i as int] == entry);
            assert forall|a: int| 0 <= a < before.len() && !(replaced && a == i) implies {
                let b = if a < i {
                    a
                } else {
                    a + shift
                };
                #[trigger] before[a] == after[b]
            } by {}
            assert(ordered(after)) by {
                assert forall|a: int, b: int| 0 <= a < b < after.len() implies sooner(
                    (#[trigger] after[a]).key(),
                    (#[trigger] after[b]).key(),
                ) by {
                    let x = if a < i {
                        a
                    } else {
                        a - shift
                    };
                    let y = if b < i {
                        b
                    } else {
                        b - shift
                    };
                    if a != i {
                        assert(after[a] == before[x]);
                    }
                    if b != i {
                        assert(after[b] == before[y]);
                    }
                    if a == i && b > i && i < before.len() {
                        assert(!sooner(before[i as int].key(), key));
                        if y > i {
                            assert(sooner(before[i as int].key(), before[y].key()));
                        }
                    }
                    if b == i {
                        assert(sooner(before[a].key(), key));
                    }
                }
            }
            let map = as_map(before).insert(key, waker);
            assert forall|a: int| 0 <= a < after.len() implies map.contains_key(
                (#[trigger] after[a]).key(),
            ) && map[after[a].key()] == after[a].waker by {
                if a != i {
                    let x = if a < i {
                        a
                    } else {
                        a - shift
                    };
                    assert(after[a] == before[x]);
                    lemma_map_at(before, x);
                    if a < i {
                        assert(sooner(after[a].key(), after[i as int].key()));
                    } else {
                        assert(sooner(after[i as int].key(), after[a].key()));
                    }
                }
            }
            assert forall|k: (Nanos, usize)| #[trigger] map.contains_key(k) implies has_key(
                after,
                k,
            ) by {
                if k == key {
                    assert(after[i as int].key() == k);
                } else {
                    let a = choose|a: int|
                        0 <= a < before.len() && (#[trigger] before[a]).key() == k;
                    let b = if a < i {
                        a
                    } else {
                        a + shift
                    };
                    assert(after[b].key() == k);
                }
            }
            lemma_same_map(after, map);
        }
    }

    /// Removes a timer, if it is there.
    pub fn remove(&mut self, when: Nanos, id: usize)
        requires
            old(self).wf(),
        ensures
            final(self).wf(),
            final(self).map() == old(self).map().remove((when, id)),
    {
        let i = self.place(when, id);
        let ghost before = self.entries@;
        let ghost key: (Nanos, usize) = (when, id);
        let found = i < self.entries.len() && self.entries[i].when == when && self.entries[i].id
            == id;
        if found {
            self.entries.remove(i);
        }
        proof {
            let after = self.entries@;
            let shift: int = if found {
                1
            } else {
                0
            };
            assert forall|a: int| 0 <= a < after.len() implies {
                let x = if a < i {
                    a
                } else {
                    a + shift
                };
                #[trigger] after[a] == before[x]
            } by {}
            assert(ordered(after));
            let map = as_map(before).remove(key);
            assert forall|a: int| 0 <= a < after.len() implies map.contains_key(
                (#[trigger] after[a]).key(),
            ) && map[after[a].key()] == after[a].waker by {
                let x = if a < i {
                    a
                } else {
                    a + shift
                };
                lemma_map_at(before, x);
                if x < i {
                    assert(sooner(before[x].key(), key));
                } else if i < before.len() {
                    if x > i {
                        assert(sooner(before[i as int].key(), before[x].key()));
                    }
                    assert(!sooner(before[i as int].key(), key));
                }
            }
            assert forall|k: (Nanos, usize)| #[trigger] map.contains_key(k) implies has_key(
                after,
                k,
            ) by {
                let a = choose|a: int| 0 <= a < before.len() && (#[trigger] before[a]).key() == k;
                let b = if a < i {
                    a
                } else {
                    a - shift
                };
                assert(after[b].key() == k);
            }
            lemma_same_map(after, map);
        }
    }

    /// Takes out the timers that were to go off before `now`, and wakes up those who wait for them.
    /// Says how long it is until the next timer: no time if one went off just now.
    pub fn expire(&mut self, now: Nanos, woken: &mut Vec<Wake>) -> (r: Option<Nanos>)
        requires
            old(self).wf(),
        ensures
            final(self).wf(),
            due(old(self).entries(), now) <= old(self).entries().len(),
            final(self).entries() == old(self).entries().skip(due(old(self).entries(), now) as int),
            final(woken)@ == old(woken)@ + wakes_of(
                old(self).entries().take(due(old(self).entries(), now) as int),
            ),
            forall|i: int|
                0 <= i < final(self).entries().len() ==> (#[trigger] final(self).entries()[i]).when
                    >= now,
            r == (if due(old(self).entries(), now) > 0 {
                Some(0)
            } else if final(self).entries().len() > 0 {
                Some((final(self).entries()[0].when - now) as Nanos)
            } else {
                None
            }),
            forall|i: int|
                0 <= i < old(self).entries().len() && (#[trigger] old(self).entries()[i]).when < now
                    ==> final(woken)@.contains(Wake::Task(old(self).entries()[i].waker)),
            final(woken)@.len() > old(woken)@.len() ==> r == Some::<Nanos>(0),
            final(woken)@.len() == old(woken)@.len() && final(self).entries().len() == 0 ==> r is None,
            r matches Some(wait) ==> forall|i: int|
                0 <= i < final(self).entries().len() ==> now + wait <= (
                #[trigger] final(self).entries()[i]).when,
            final(woken)@.len() == old(woken)@.len() && final(self).entries().len() > 0 ==> exists|i: int|
                0 <= i < final(self).entries().len() && r == Some(
                    ((#[trigger] final(self).entries()[i]).when - now) as Nanos,
                ),
    {
        let ghost before = self.entries@;
        let mut n: usize = 0;
        assert(woken@ =~= old(woken)@ + wakes_of(before.take(0)));
        while n < self.entries.len() && self.entries[n].when < now
            invariant
                self.entries@ == before,
                n <= before.len(),
                forall|i: int| 0 <= i < n ==> (#[trigger] before[i]).when < now,
                woken@ == old(woken)@ + wakes_of(before.take(n as int)),
            decreases before.len() - n,
        {
            let entry: TimerEntry = self.entries[n];
            woken.push(Wake::Task(entry.waker));
            assert(woken@ =~= old(woken)@ + wakes_of(before.take(n + 1)));
            n = n + 1;
        }
        proof {
            lemma_due(before, now, n as int);
            assert forall|i: int| n <= i < before.len() implies (#[trigger] before[i]).when
                >= now by {
                if i > n {
                    assert(sooner(before[n as int].key(), before[i].key()));
                }
            }
        }
        let pending = self.entries.split_off(n);
        self.entries = pending;
        assert(self.entries@ =~= before.skip(n as int));
        proof {
            assert forall|i: int| 0 <= i < before.len() && (#[trigger] before[i]).when
                < now implies woken@.contains(Wake::Task(before[i].waker)) by {
                assert(i < n);
                assert(woken@[old(woken)@.len() + i] == Wake::Task(before[i].waker));
            }
            assert forall|i: int| 0 < i < self.entries@.len() implies self.entries@[0].when <= (
            #[trigger] self.entries@[i]).when by {
                assert(sooner(self.entries@[0].key(), self.entries@[i].key()));
            }
        }
        if n > 0 {
            Some(0)
        } else if self.entries.len() > 0 {
            Some(self.entries[0].when - now)
        } else {
            None
        }
    }
}

/// No timer goes off early, and none that is overdue is left: after the timers that were due are
/// out, each one is either among those taken out and was to go off before `now`, or among those left
/// and was not.
pub proof fn law_on_time(entries: Seq<TimerEntry>, now: Nanos, i: int)
    requires
        ordered(entries),
        0 <= i < entries.len(),
    ensures
        i < due(entries, now) <==> entries[i].when < now,
    decreases entries.len(),
{
    if entries[0].when < now {
        let rest = entries.drop_first();
        assert(ordered(rest)) by {
            assert forall|a: int, b: int| 0 <= a < b < rest.len() implies sooner(
                (#[trigger] rest[a]).key(),
                (#[trigger] rest[b]).key(),
            ) by {
                assert(rest[a] == entries[a + 1] && rest[b] == entries[b + 1]);
            }
        }
        if i > 0 {
            law_on_time(rest, now, i - 1);
        }
    } else if i > 0 {
        assert(sooner(entries[0].key(), entries[i].key()));
    }
}

/// Of two timers, the one that stands first goes off no later; where both go off at the same time,
/// it has the lesser number.
pub proof fn law_in_order(entries: Seq<TimerEntry>, i: int, j: int)
    requires
        ordered(entries),
        0 <= i < j < entries.len(),
    ensures
        entries[i].when <= entries[j].when,
        entries[i].when == entries[j].when ==> entries[i].id < entries[j].id,
{
    assert(sooner(entries[i].key(), entries[j].key()));
}

/// Those who are woken up are those whom the timers name, each in its turn.
pub proof fn law_each_woken(entries: Seq<TimerEntry>, i: int)
    requires
        0 <= i < entries.len(),
    ensures
        wakes_of(entries).len() == entries.len(),
        wakes_of(entries)[i] == Wake::Task(entries[i].waker),
{
}

} // verus!
