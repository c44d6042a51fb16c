//! An event that tasks and threads listen to.
//!
//! The listeners stand in a list, in the order in which they came. Notifying goes down the list,
//! so that the notified ones are at all times the first ones of it.

use vstd::prelude::*;
use crate::task::{Context, Nanos, Poll, Wake, Waker};

verus! {

/// What is known of a listener.
#[derive(Clone, Copy, Debug, PartialEq, Eq, Structural)]
pub enum State {
    /// It was just created.
    Created,
    /// It was notified; the flag says whether by [`Event::notify_additional`].
    Notified(bool),
    /// A task polls it.
    Polling(Waker),
    /// A thread is parked on it.
    Waiting(u64),
}

impl State {
    pub fn is_notified(&self) -> (r: bool)
        ensures
            r == (*self is Notified),
    {
        match self {
            State::Notified(_) => true,
            State::Created | State::Polling(_) | State::Waiting(_) => false,
        }
    }

    /// Whom to wake up when the listener is notified.
    pub open spec fn wake(self) -> Seq<Wake> {
        match self {
            State::Polling(waker) => seq![Wake::Task(waker)],
            State::Waiting(thread) => seq![Wake::Thread(thread)],
            _ => Seq::empty(),
        }
    }
}

/// A listener in the list of an event.
#[derive(Clone, Copy, Debug, PartialEq, Eq, Structural)]
pub struct Entry {
    pub id: u64,
    pub state: State,
}

/// Whom to wake up when all of `entries` are notified, in this order.
pub open spec fn wakes(entries: Seq<Entry>) -> Seq<Wake>
    decreases entries.len(),
{
    if entries.len() == 0 {
        Seq::empty()
    } else {
        wakes(entries.drop_last()) + entries.last().state.wake()
    }
}

/// `entries` once those from `from` to `to` are notified.
pub open spec fn notified_between(
    entries: Seq<Entry>,
    from: int,
    to: int,
    additional: bool,
) -> Seq<Entry> {
    Seq::new(
        entries.len(),
        |i: int|
            if from <= i < to {
                Entry { id: entries[i].id, state: State::Notified(additional) }
            } else {
                entries[i]
            },
    )
}

/// The place of the listener `id` in `entries`.
pub open spec fn place(entries: Seq<Entry>, id: u64) -> int {
    choose|i: int| 0 <= i < entries.len() && (#[trigger] entries[i]).id == id
}

pub open spec fn is_listed(entries: Seq<Entry>, id: u64) -> bool {
    exists|i: int| 0 <= i < entries.len() && (#[trigger] entries[i]).id == id
}

spec fn distinct(entries: Seq<Entry>) -> bool {
    forall|i: int, j: int|
        0 <= i < j < entries.len() ==> (#[trigger] entries[i]).id != (#[trigger] entries[j]).id
}

/// The lesser of two numbers.
pub open spec fn least(a: int, b: int) -> int {
    if a < b {
        a
    } else {
        b
    }
}

/// The greater of two numbers.
pub open spec fn greatest(a: int, b: int) -> int {
    if a < b {
        b
    } else {
        a
    }
}

/// The list of listeners.
struct List {
    entries: Vec<Entry>,
    /// The place of the first listener that was not notified.
    start: usize,
    notified: usize,
    next_id: u64,
}

impl List {
    spec fn wf(&self) -> bool {
        &&& self.start <= self.entries@.len()
        &&& self.notified == self.start
        &&& distinct(self.entries@)
        &&& forall|i: int|
            0 <= i < self.entries@.len() ==> ((#[trigger] self.entries@[i]).state is Notified <==> i
                < self.start)
    }

    /// Where the listener `id` stands.
    fn find(&self, id: u64) -> (r: usize)
        requires
            self.wf(),
            is_listed(self.entries@, id),
        ensures
            r < self.entries@.len(),
            self.entries@[r as int].id == id,
            r == place(self.entries@, id),
    {
        let mut i: usize = 0;
        while self.entries[i].id != id
            invariant
                self.wf(),
                is_listed(self.entries@, id),
                i < self.entries@.len(),
                forall|j: int| 0 <= j < i ==> (#[trigger] self.entries@[j]).id != id,
            decreases self.entries@.len() - i,
        {
            assert(self.entries.len() == self.entries@.len());
            assert(i + 1 < self.entries@.len()) by {
                let j = place(self.entries@, id);
                assert(self.entries@[j].id == id);
            }
            i = i + 1;
        }
        i
    }

    fn contains(&self, id: u64) -> (r: bool)
        ensures
            r == is_listed(self.entries@, id),
    {
        let mut i: usize = 0;
        while i < self.entries.len()
            invariant
                i <= self.entries@.len(),
                forall|j: int| 0 <= j < i ==> (#[trigger] self.entries@[j]).id != id,
            decreases self.entries@.len() - i,
        {
            if self.entries[i].id == id {
                return true;
            }
            i = i + 1;
        }
        false
    }

    /// An identifier that no listener in the list has.
    fn fresh_id(&self) -> (r: u64)
        requires
            self.wf(),
        ensures
            !is_listed(self.entries@, r),
    {
        let from: u64 = self.next_id;
        let mut k: u64 = 0;
        let mut id: u64 = from;
        assert(self.entries.len() == self.entries@.len());
        while self.contains(id)
            invariant
                self.wf(),
                k <= self.entries@.len() <= usize::MAX,
                id == from.wrapping_add(k),
                forall|j: u64| j < k ==> is_listed(self.entries@, #[trigger] from.wrapping_add(j)),
            decreases self.entries@.len() - k,
        {
            proof {
                assert(forall|j: u64|
                    j <= k ==> is_listed(self.entries@, #[trigger] from.wrapping_add(j)));
                lemma_crowd(self.entries@, from, k);
                assert(self.entries.len() == self.entries@.len());
            }
            k = k + 1;
            id = from.wrapping_add(k);
        }
        id
    }

    fn insert(&mut self) -> (r: u64)
        requires
            old(self).wf(),
        ensures
            final(self).wf(),
            !is_listed(old(self).entries@, r),
            final(self).entries@ == old(self).entries@.push(
                Entry { id: r, state: State::Created },
            ),
            final(self).start == old(self).start,
    {
        let id = self.fresh_id();
        self.entries.push(Entry { id, state: State::Created });
        self.next_id = id.wrapping_add(1);
        id
    }

    fn remove(&mut self, id: u64) -> (r: State)
        requires
            old(self).wf(),
            is_listed(old(self).entries@, id),
        ensures
            final(self).wf(),
            final(self).entries@ == old(self).entries@.remove(place(old(self).entries@, id)),
            r == old(self).entries@[place(old(self).entries@, id)].state,
            final(self).start == old(self).start - (if r is Notified {
                1int
            } else {
                0
            }),
    {
        let i = self.find(id);
        let entry = self.entries.remove(i);
        if i < self.start {
            self.start = self.start - 1;
        }
        if entry.state.is_notified() {
            self.notified = self.notified - 1;
        }
        entry.state
    }

    /// Notifies the first listener that was not.
    fn notify_next(&mut self, additional: bool, woken: &mut Vec<Wake>)
        requires
            old(self).wf(),
            old(self).start < old(self).entries@.len(),
        ensures
            final(self).wf(),
            final(self).start == old(self).start + 1,
            final(self).entries@ == notified_between(
                old(self).entries@,
                old(self).start as int,
                old(self).start + 1,
                additional,
            ),
            final(woken)@ == old(woken)@ + old(self).entries@[old(self).start as int].state.wake(),
    {
        let at: usize = self.start;
        let entry: Entry = self.entries[at];
        assert(self.entries.len() == self.entries@.len());
        self.start = at + 1;
        self.entries.set(at, Entry { id: entry.id, state: State::Notified(additional) });
        match entry.state {
            State::Notified(_) => {},
            State::Created => {
                assert(woken@ =~= old(woken)@ + entry.state.wake());
            },
            State::Polling(waker) => {
                woken.push(Wake::Task(waker));
                assert(woken@ =~= old(woken)@ + entry.state.wake());
            },
            State::Waiting(thread) => {
                woken.push(Wake::Thread(thread));
                assert(woken@ =~= old(woken)@ + entry.state.wake());
            },
        }
        self.notified = self.notified + 1;
        assert(self.entries@ =~= notified_between(
            old(self).entries@,
            at as int,
            at + 1,
            additional,
        ));
    }

    /// Notifies `n` more listeners, or all that are left.
    fn notify_more(&mut self, n: usize, additional: bool, woken: &mut Vec<Wake>)
        requires
            old(self).wf(),
        ensures
            final(self).wf(),
            final(self).start == least(old(self).entries@.len() as int, old(self).start + n),
            final(self).entries@ == notified_between(
                old(self).entries@,
                old(self).start as int,
                final(self).start as int,
                additional,
            ),
            final(woken)@ == old(woken)@ + wakes(
                old(self).entries@.subrange(old(self).start as int, final(self).start as int),
            ),
    {
        let mut left: usize = n;
        let ghost from: int = self.start as int;
        proof {
            assert(self.entries@ =~= notified_between(self.entries@, from, from, additional));
            assert(woken@ =~= old(woken)@ + wakes(old(self).entries@.subrange(from, from)));
        }
        while left > 0 && self.start < self.entries.len()
            invariant
                self.wf(),
                left <= n,
                from == old(self).start,
                self.entries@.len() == old(self).entries@.len(),
                self.start == least(old(self).entries@.len() as int, from + (n - left)),
                self.entries@ == notified_between(
                    old(self).entries@,
                    from,
                    self.start as int,
                    additional,
                ),
                woken@ == old(woken)@ + wakes(
                    old(self).entries@.subrange(from, self.start as int),
                ),
            decreases left,
        {
            left = left - 1;
            let ghost at: int = self.start as int;
            self.notify_next(additional, woken);
            proof {
                assert(self.entries@ =~= notified_between(
                    old(self).entries@,
                    from,
                    at + 1,
                    additional,
                ));
                let upto = old(self).entries@.subrange(from, at + 1);
                assert(upto.drop_last() =~= old(self).entries@.subrange(from, at));
                assert(upto.last() == old(self).entries@[at]);
                assert(woken@ =~= old(woken)@ + wakes(upto));
            }
        }
    }
}

/// More identifiers than there are listeners cannot all be taken.
proof fn lemma_crowd(entries: Seq<Entry>, from: u64, k: u64)
    requires
        forall|j: u64| j <= k ==> is_listed(entries, #[trigger] from.wrapping_add(j)),
    ensures
        k < entries.len(),
{
    let ids = Seq::new(entries.len(), |i: int| entries[i].id);
    let wanted = Seq::new((k + 1) as nat, |j: int| from.wrapping_add(j as u64));
    assert(wanted.no_duplicates());
    assert forall|x: u64| wanted.to_set().contains(x) implies ids.to_set().contains(x) by {
        let j = choose|j: int| 0 <= j < wanted.len() && wanted[j] == x;
        assert(is_listed(entries, from.wrapping_add(j as u64)));
        let i = place(entries, x);
        assert(ids[i] == x);
    }
    wanted.unique_seq_to_set();
    ids.lemma_cardinality_of_set();
    vstd::set_lib::lemma_len_subset(wanted.to_set(), ids.to_set());
}

/// What the event and those woken up are once at least `n` listeners are notified, or all where
/// there are fewer.
pub open spec fn notifies(
    before: &Event,
    after: &Event,
    n: int,
    woken: Seq<Wake>,
    woken_after: Seq<Wake>,
) -> bool {
    notifies_upto(
        before,
        after,
        least(before.entries().len() as int, greatest(before.notified() as int, n)),
        false,
        woken,
        woken_after,
    )
}

/// What the event and those woken up are once `n` more listeners are notified, or all that are
/// left.
pub open spec fn notifies_additional(
    before: &Event,
    after: &Event,
    n: int,
    woken: Seq<Wake>,
    woken_after: Seq<Wake>,
) -> bool {
    notifies_upto(
        before,
        after,
        least(before.entries().len() as int, before.notified() + n),
        true,
        woken,
        woken_after,
    )
}

/// What the event and those woken up are once the first `to` listeners are notified.
pub open spec fn notifies_upto(
    before: &Event,
    after: &Event,
    to: int,
    additional: bool,
    woken: Seq<Wake>,
    woken_after: Seq<Wake>,
) -> bool {
    &&& after.wf()
    &&& after.id() == before.id()
    &&& after.in_use() == before.in_use()
    &&& after.notified() == to
    &&& after.entries() == notified_between(
        before.entries(),
        before.notified() as int,
        to,
        additional,
    )
    &&& woken_after == woken + wakes(before.entries().subrange(before.notified() as int, to))
}

/// The event is as it was.
pub open spec fn keeps(before: &Event, after: &Event) -> bool {
    &&& after.wf()
    &&& after.id() == before.id()
    &&& after.in_use() == before.in_use()
    &&& after.entries() == before.entries()
    &&& after.notified() == before.notified()
}

/// What the event is once the listener that stands at `at` is out of the list.
pub open spec fn removes(before: &Event, after: &Event, at: int) -> bool {
    &&& after.wf()
    &&& after.id() == before.id()
    &&& after.in_use() == before.in_use()
    &&& after.entries() == before.entries().remove(at)
    &&& after.notified() == before.notified() - (if before.entries()[at].state is Notified {
        1int
    } else {
        0
    })
}

/// What the event is once the listener at `at` is known to be in `state`.
pub open spec fn restates(before: &Event, after: &Event, at: int, state: State) -> bool {
    &&& after.wf()
    &&& after.id() == before.id()
    &&& after.in_use() == before.in_use()
    &&& after.entries() == before.entries().update(
        at,
        Entry { id: before.entries()[at].id, state },
    )
    &&& after.notified() == before.notified()
}

/// What the event is once the listener `listener` was put at the end of the list.
pub open spec fn listens(before: &Event, after: &Event, listener: &EventListener) -> bool {
    &&& after.wf()
    &&& after.id() == before.id()
    &&& after.in_use()
    &&& after.notified() == before.notified()
    &&& listener.event() == before.id()
    &&& listener.entry() matches Some(id) && !is_listed(before.entries(), id) && after.entries()
        == before.entries().push(Entry { id, state: State::Created })
}

/// What the event and those woken up are once `listener` was given up: a notification that it had
/// is passed on.
pub open spec fn drops(
    listener: &EventListener,
    before: &Event,
    after: &Event,
    woken: Seq<Wake>,
    woken_after: Seq<Wake>,
) -> bool {
    if listener.entry() is None {
        keeps(before, after) && woken_after == woken
    } else {
        exists|between: Event|
            {
                &&& #[trigger] removes(before, &between, listener.place(before))
                &&& match listener.state(before) {
                    State::Notified(true) => notifies_additional(
                        &between,
                        after,
                        1,
                        woken,
                        woken_after,
                    ),
                    State::Notified(false) => notifies(&between, after, 1, woken, woken_after),
                    _ => keeps(&between, after) && woken_after == woken,
                }
            }
    }
}

/// An event.
pub struct Event {
    id: u64,
    inner: Option<Inner>,
}

struct Inner {
    /// How many listeners were notified; `usize::MAX` if all were.
    notified: usize,
    list: List,
}

impl Inner {
    spec fn wf(&self) -> bool {
        &&& self.list.wf()
        &&& self.notified == (if self.list.notified < self.list.entries@.len() {
            self.list.notified
        } else {
            usize::MAX
        })
    }

    /// Brings the count of the notified listeners up to date.
    fn refresh(&mut self)
        requires
            old(self).list.wf(),
        ensures
            final(self).wf(),
            final(self).list == old(self).list,
    {
        self.notified = if self.list.notified < self.list.entries.len() {
            self.list.notified
        } else {
            usize::MAX
        };
    }
}

impl Event {
    pub closed spec fn wf(&self) -> bool {
        self.inner matches Some(inner) ==> inner.wf()
    }

    /// What tells this event from others.
    pub closed spec fn id(&self) -> u64 {
        self.id
    }

    /// Somebody has listened to the event before.
    pub closed spec fn in_use(&self) -> bool {
        self.inner is Some
    }

    /// The listeners, in the order in which they came.
    pub closed spec fn entries(&self) -> Seq<Entry> {
        match self.inner {
            Some(inner) => inner.list.entries@,
            None => Seq::empty(),
        }
    }

    /// How many of the listeners were notified.
    pub closed spec fn notified(&self) -> nat {
        match self.inner {
            Some(inner) => inner.list.start as nat,
            None => 0,
        }
    }

    /// The notified listeners are the first ones of the list, and no two have the same identifier.
    pub proof fn lemma_order(&self)
        requires
            self.wf(),
        ensures
            self.notified() <= self.entries().len(),
            forall|i: int|
                0 <= i < self.entries().len() ==> ((#[trigger] self.entries()[i]).state is Notified
                    <==> i < self.notified()),
            forall|i: int, j: int|
                0 <= i < j < self.entries().len() ==> (#[trigger] self.entries()[i]).id
                    != (#[trigger] self.entries()[j]).id,
    {
    }

    /// An event that nobody listens to.
    pub fn new(id: u64) -> (r: Self)
        ensures
            r.wf(),
            r.id() == id,
            !r.in_use(),
            r.entries() == Seq::<Entry>::empty(),
            r.notified() == 0,
    {
        Event { id, inner: None }
    }

    fn inner(&mut self)
        requires
            old(self).wf(),
        ensures
            final(self).wf(),
            final(self).inner is Some,
            final(self).id() == old(self).id(),
            final(self).entries() == old(self).entries(),
            final(self).notified() == old(self).notified(),
    {
        if self.inner.is_none() {
            self.inner = Some(
                Inner {
                    notified: usize::MAX,
                    list: List { entries: Vec::new(), start: 0, notified: 0, next_id: 0 },
                },
            );
        }
    }

    /// Puts a listener at the end of the list.
    pub fn listen(&mut self) -> (r: EventListener)
        requires
            old(self).wf(),
        ensures
            listens(old(self), final(self), &r),
    {
        self.inner();
        let event = self.id;
        let mut entry = None;
        match &mut self.inner {
            Some(inner) => {
                entry = Some(inner.list.insert());
                inner.refresh();
            },
            None => {},
        }
        EventListener { event, entry }
    }

    /// Sees to it that at least `n` listeners are notified, or all where there are fewer.
    pub fn notify(&mut self, n: usize, woken: &mut Vec<Wake>)
        requires
            old(self).wf(),
        ensures
            notifies(old(self), final(self), n as int, old(woken)@, final(woken)@),
    {
        let ghost from: int = self.notified() as int;
        proof {
            self.lemma_order();
            assert(self.entries() =~= notified_between(self.entries(), from, from, false));
            assert(woken@ =~= old(woken)@ + wakes(self.entries().subrange(from, from)));
        }
        match &mut self.inner {
            Some(inner) => if inner.notified < n {
                if n > inner.list.notified {
                    let more: usize = n - inner.list.notified;
                    inner.list.notify_more(more, false, woken);
                }
                inner.refresh();
            },
            None => {},
        }
    }

    /// Like [`Event::notify`]; differs from it between processors only.
    pub fn notify_relaxed(&mut self, n: usize, woken: &mut Vec<Wake>)
        requires
            old(self).wf(),
        ensures
            notifies(old(self), final(self), n as int, old(woken)@, final(woken)@),
    {
        self.notify(n, woken)
    }

    /// Notifies `n` more listeners, or all that are left.
    pub fn notify_additional(&mut self, n: usize, woken: &mut Vec<Wake>)
        requires
            old(self).wf(),
        ensures
            notifies_additional(old(self), final(self), n as int, old(woken)@, final(woken)@),
    {
        let ghost from: int = self.notified() as int;
        proof {
            self.lemma_order();
            assert(self.entries() =~= notified_between(self.entries(), from, from, true));
            assert(woken@ =~= old(woken)@ + wakes(self.entries().subrange(from, from)));
        }
        match &mut self.inner {
            Some(inner) => {
                assert(inner.list.entries.len() == inner.list.entries@.len());
                if inner.notified < usize::MAX {
                    inner.list.notify_more(n, true, woken);
                    inner.refresh();
                }
            },
            None => {},
        }
    }

    /// Like [`Event::notify_additional`]; differs from it between processors only.
    pub fn notify_additional_relaxed(&mut self, n: usize, woken: &mut Vec<Wake>)
        requires
            old(self).wf(),
        ensures
            notifies_additional(old(self), final(self), n as int, old(woken)@, final(woken)@),
    {
        self.notify_additional(n, woken)
    }

    /// Takes the listener `id` out of the list.
    fn remove(&mut self, id: u64) -> (r: State)
        requires
            old(self).wf(),
            is_listed(old(self).entries(), id),
        ensures
            removes(old(self), final(self), place(old(self).entries(), id)),
            r == old(self).entries()[place(old(self).entries(), id)].state,
    {
        match &mut self.inner {
            Some(inner) => {
                let state = inner.list.remove(id);
                inner.refresh();
                state
            },
            None => State::Created,
        }
    }

    fn state(&self, id: u64) -> (r: State)
        requires
            self.wf(),
            is_listed(self.entries(), id),
        ensures
            r == self.entries()[place(self.entries(), id)].state,
    {
        match &self.inner {
            Some(inner) => {
                let i = inner.list.find(id);
                inner.list.entries[i].state
            },
            None => State::Created,
        }
    }

    /// Notes how the listener `id`, which was not notified, is to be woken up.
    fn set_state(&mut self, id: u64, state: State)
        requires
            old(self).wf(),
            is_listed(old(self).entries(), id),
            !(old(self).entries()[place(old(self).entries(), id)].state is Notified),
            !(state is Notified),
        ensures
            restates(old(self), final(self), place(old(self).entries(), id), state),
    {
        match &mut self.inner {
            Some(inner) => {
                let i = inner.list.find(id);
                inner.list.entries.set(i, Entry { id, state });
            },
            None => {},
        }
    }
}

/// Waits for an event.
pub struct EventListener {
    event: u64,
    entry: Option<u64>,
}

/// What a thread that waits for an event does next.
#[derive(Clone, Copy, Debug, PartialEq, Eq, Structural)]
pub enum WaitStep {
    /// The listener was notified.
    Notified,
    /// The thread parks.
    Park,
    /// The thread parks for this long.
    ParkTimeout(Nanos),
    /// The deadline has passed.
    TimedOut,
}

impl EventListener {
    /// The event that is listened to.
    pub closed spec fn event(&self) -> u64 {
        self.event
    }

    /// The identifier in the list of the event, until the listener is done.
    pub closed spec fn entry(&self) -> Option<u64> {
        self.entry
    }

    /// The listener is in the list of `event`.
    pub open spec fn active(&self, event: &Event) -> bool {
        &&& self.event() == event.id()
        &&& event.in_use()
        &&& self.entry() matches Some(id) && is_listed(event.entries(), id)
    }

    /// Where the listener stands in the list of `event`.
    pub open spec fn place(&self, event: &Event) -> int {
        place(event.entries(), self.entry()->0)
    }

    pub open spec fn state(&self, event: &Event) -> State {
        event.entries()[self.place(event)].state
    }

    /// Whether this listens to `event`.
    pub fn listens_to(&self, event: &Event) -> (r: bool)
        ensures
            r == (event.in_use() && self.event() == event.id()),
    {
        event.inner.is_some() && self.event == event.id
    }

    /// Whether both listen to the same event.
    pub fn same_event(&self, other: &EventListener) -> (r: bool)
        ensures
            r == (self.event() == other.event()),
    {
        self.event == other.event
    }

    /// Gives the listener up; says whether it had been notified.
    pub fn discard(self, event: &mut Event) -> (r: bool)
        requires
            old(event).wf(),
            self.entry() is Some ==> self.active(old(event)),
        ensures
            self.entry() is Some ==> r == (self.state(old(event)) is Notified) && removes(
                old(event),
                final(event),
                self.place(old(event)),
            ),
            self.entry() is None ==> !r && keeps(old(event), final(event)),
    {
        match self.entry {
            Some(id) => {
                let state = event.remove(id);
                state.is_notified()
            },
            None => false,
        }
    }

    /// Gives the listener up and passes a notification that it had on to another one.
    pub fn drop(self, event: &mut Event, woken: &mut Vec<Wake>)
        requires
            old(event).wf(),
            self.entry() is Some ==> self.active(old(event)),
        ensures
            drops(&self, old(event), final(event), old(woken)@, final(woken)@),
    {
        match self.entry {
            Some(id) => {
                let state = event.remove(id);
                assert(removes(old(event), event, self.place(old(event))));
                match state {
                    State::Notified(additional) => if additional {
                        event.notify_additional(1, woken);
                    } else {
                        event.notify(1, woken);
                    },
                    _ => {},
                }
            },
            None => {},
        }
    }

    /// Asks whether the listener was notified; if not, the task will be woken up.
    pub fn poll(&mut self, event: &mut Event, cx: &Context) -> (r: Poll<()>)
        requires
            old(event).wf(),
            old(self).active(old(event)),
            !(old(self).state(old(event)) is Waiting),
        ensures
            final(self).event() == old(self).event(),
            (r is Ready) == (old(self).state(old(event)) is Notified),
            r is Ready ==> final(self).entry() is None && removes(
                old(event),
                final(event),
                old(self).place(old(event)),
            ),
            r is Pending ==> {
                &&& final(self).entry() == old(self).entry()
                &&& final(self).active(final(event))
                &&& restates(
                    old(event),
                    final(event),
                    old(self).place(old(event)),
                    State::Polling(cx.waker),
                )
            },
            // The task that asked last is the one that will be woken up.
            r is Pending ==> final(self).state(final(event)) == State::Polling(cx.waker),
    {
        let id = match self.entry {
            Some(id) => id,
            None => 0,
        };
        let ghost at = self.place(event);
        match event.state(id) {
            State::Notified(_) => {
                event.remove(id);
                self.entry = None;
                return Poll::Ready(());
            },
            State::Created => {
                event.set_state(id, State::Polling(cx.waker));
            },
            State::Polling(waker) => {
                if !waker.will_wake(&cx.waker) {
                    event.set_state(id, State::Polling(cx.waker));
                } else {
                    proof {
                        assert(event.entries()[at].id == id);
                        assert(event.entries() =~= event.entries().update(
                            at,
                            Entry { id, state: State::Polling(cx.waker) },
                        ));
                    }
                }
            },
            State::Waiting(_) => {},
        }
        assert(event.entries()[at].id == id);
        proof {
            lemma_place(event, at);
        }
        Poll::Pending
    }

    /// Begins to wait in the thread `thread`: says whether the listener was notified already.
    pub fn start_wait(&mut self, event: &mut Event, thread: u64) -> (r: bool)
        requires
            old(event).wf(),
            old(self).active(old(event)),
        ensures
            final(self).event() == old(self).event(),
            (r) == (old(self).state(old(event)) is Notified),
            r ==> final(self).entry() is None && removes(
                old(event),
                final(event),
                old(self).place(old(event)),
            ),
            !r ==> {
                &&& final(self).entry() == old(self).entry()
                &&& final(self).active(final(event))
                &&& restates(
                    old(event),
                    final(event),
                    old(self).place(old(event)),
                    State::Waiting(thread),
                )
            },
            !r ==> final(self).state(final(event)) == State::Waiting(thread),
    {
        let id = match self.entry {
            Some(id) => id,
            None => 0,
        };
        let ghost at = self.place(event);
        if event.state(id).is_notified() {
            event.remove(id);
            self.entry = None;
            return true;
        }
        event.set_state(id, State::Waiting(thread));
        assert(event.entries()[at].id == id);
        proof {
            lemma_place(event, at);
        }
        false
    }

    /// What a waiting thread does next: it parks, unless `deadline` has come by `now`.
    pub fn wait_step(deadline: Option<Nanos>, now: Nanos) -> (r: WaitStep)
        ensures
            r == (match deadline {
                None => WaitStep::Park,
                Some(deadline) => if now >= deadline {
                    WaitStep::TimedOut
                } else {
                    WaitStep::ParkTimeout((deadline - now) as Nanos)
                },
            }),
            // It parks until the deadline at most, and has waited in vain only once it has come.
            r matches WaitStep::ParkTimeout(span) ==> span > 0 && deadline == Some(
                (now + span) as Nanos,
            ),
            r is TimedOut <==> (deadline matches Some(deadline) && deadline <= now),
            r is Park <==> deadline is None,
    {
        match deadline {
            None => WaitStep::Park,
            Some(deadline) => if now >= deadline {
                WaitStep::TimedOut
            } else {
                WaitStep::ParkTimeout(deadline - now)
            },
        }
    }

    /// Asks after the thread was unparked whether the listener was notified.
    pub fn check_wait(&mut self, event: &mut Event) -> (r: bool)
        requires
            old(event).wf(),
            old(self).active(old(event)),
        ensures
            final(self).event() == old(self).event(),
            (r) == (old(self).state(old(event)) is Notified),
            r ==> final(self).entry() is None && removes(
                old(event),
                final(event),
                old(self).place(old(event)),
            ),
            !r ==> final(self).entry() == old(self).entry() && keeps(old(event), final(event)),
    {
        let id = match self.entry {
            Some(id) => id,
            None => 0,
        };
        if event.state(id).is_notified() {
            event.remove(id);
            self.entry = None;
            return true;
        }
        false
    }
}

/// A place is the only one at which its identifier stands.
pub proof fn lemma_place(event: &Event, at: int)
    requires
        event.wf(),
        0 <= at < event.entries().len(),
    ensures
        is_listed(event.entries(), event.entries()[at].id),
        place(event.entries(), event.entries()[at].id) == at,
{
    event.lemma_order();
}

/// Whoever just began to listen is active and was not notified, and the others are where they
/// were.
pub proof fn lemma_listens(before: &Event, after: &Event, listener: &EventListener)
    requires
        before.wf(),
        listens(before, after, listener),
    ensures
        listener.active(after),
        listener.place(after) == before.entries().len(),
        listener.state(after) is Created,
{
    let at = before.entries().len() as int;
    assert(after.entries()[at].id == listener.entry()->0);
    lemma_place(after, at);
}

/// A notification leaves everybody where they are.
pub proof fn lemma_notifies_upto(
    before: &Event,
    after: &Event,
    to: int,
    additional: bool,
    woken: Seq<Wake>,
    woken_after: Seq<Wake>,
    listener: &EventListener,
)
    requires
        before.wf(),
        notifies_upto(before, after, to, additional, woken, woken_after),
        listener.active(before),
    ensures
        listener.active(after),
        listener.place(after) == listener.place(before),
        listener.state(after) is Notified <==> listener.place(before) < to,
        !(listener.state(after) is Notified) ==> listener.state(after) == listener.state(before),
{
    let at = listener.place(before);
    assert(before.entries()[at].id == listener.entry()->0);
    assert(after.entries()[at].id == listener.entry()->0);
    lemma_place(after, at);
    before.lemma_order();
    after.lemma_order();
}

/// A notification leaves everybody where they are.
pub proof fn lemma_notifies(
    before: &Event,
    after: &Event,
    n: int,
    woken: Seq<Wake>,
    woken_after: Seq<Wake>,
    listener: &EventListener,
)
    requires
        before.wf(),
        notifies(before, after, n, woken, woken_after),
        listener.active(before),
    ensures
        listener.active(after),
        listener.place(after) == listener.place(before),
        listener.state(after) is Notified <==> listener.state(before) is Notified
            || listener.place(before) < n,
        !(listener.state(after) is Notified) ==> listener.state(after) == listener.state(before),
{
    before.lemma_order();
    let to = least(before.entries().len() as int, greatest(before.notified() as int, n));
    lemma_notifies_upto(before, after, to, false, woken, woken_after, listener);
    let at = listener.place(before);
    assert(before.entries()[at].id == listener.entry()->0);
}

/// Noting how one listener is to be woken up leaves everybody where they are.
pub proof fn lemma_restates(
    before: &Event,
    after: &Event,
    at: int,
    state: State,
    listener: &EventListener,
)
    requires
        before.wf(),
        0 <= at < before.entries().len(),
        restates(before, after, at, state),
        listener.active(before),
    ensures
        listener.active(after),
        listener.place(after) == listener.place(before),
        listener.state(after) == (if listener.place(before) == at {
            state
        } else {
            listener.state(before)
        }),
{
    let p = listener.place(before);
    assert(before.entries()[p].id == listener.entry()->0);
    assert(after.entries()[p].id == listener.entry()->0);
    lemma_place(after, p);
}

/// Whoever leaves the list leaves the others in it, in the same order and as they were.
#[verifier::spinoff_prover]
#[verifier::rlimit(50)]
pub proof fn law_others_stay(before: &Event, after: &Event, at: int, listener: &EventListener)
    requires
        before.wf(),
        0 <= at < before.entries().len(),
        removes(before, after, at),
        listener.active(before),
        listener.place(before) != at,
    ensures
        listener.active(after),
        listener.place(after) == listener.place(before) - (if at < listener.place(before) {
            1int
        } else {
            0
        }),
        listener.state(after) == listener.state(before),
{
    let p = listener.place(before);
    assert(before.entries()[p].id == listener.entry()->0);
    let q = p - (if at < p {
        1int
    } else {
        0
    });
    assert(after.entries()[q] == before.entries()[p]);
    lemma_place(after, q);
}

/// Two who listen to the same event stand at different places in its list.
pub open spec fn apart(a: Option<EventListener>, b: Option<EventListener>) -> bool {
    a is Some && b is Some ==> a->0.entry() != b->0.entry()
}

/// The listener is still in the list. It was notified in the meantime, or is as it was.
pub open spec fn undisturbed(listener: &EventListener, before: &Event, after: &Event) -> bool {
    &&& listener.active(after)
    &&& listener.state(before) is Notified ==> listener.state(after) is Notified
    &&& !(listener.state(after) is Notified) ==> listener.state(after) == listener.state(before)
}

/// Whoever begins to listen leaves the others in the list and as they were.
pub proof fn law_others_stay_listen(
    before: &Event,
    after: &Event,
    listener: &EventListener,
    other: &EventListener,
)
    requires
        before.wf(),
        listens(before, after, listener),
        other.active(before),
    ensures
        undisturbed(other, before, after),
        other.entry() != listener.entry(),
{
    let at = other.place(before);
    assert(before.entries()[at].id == other.entry()->0);
    assert(after.entries()[at] == before.entries()[at]);
    lemma_place(after, at);
}

/// A notification leaves everybody in the list, and nobody loses one that they had.
proof fn lemma_stays(
    before: &Event,
    after: &Event,
    to: int,
    additional: bool,
    woken: Seq<Wake>,
    woken_after: Seq<Wake>,
    other: &EventListener,
)
    requires
        before.wf(),
        before.notified() <= to,
        notifies_upto(before, after, to, additional, woken, woken_after),
        other.active(before),
    ensures
        undisturbed(other, before, after),
{
    before.lemma_order();
    lemma_notifies_upto(before, after, to, additional, woken, woken_after, other);
    let at = other.place(before);
    assert(before.entries()[at].id == other.entry()->0);
}

/// Whoever notifies leaves everybody in the list, and nobody loses a notification that they had.
pub proof fn law_others_stay_notify(
    before: &Event,
    after: &Event,
    n: int,
    woken: Seq<Wake>,
    woken_after: Seq<Wake>,
    other: &EventListener,
)
    requires
        before.wf(),
        notifies(before, after, n, woken, woken_after),
        other.active(before),
    ensures
        undisturbed(other, before, after),
{
    before.lemma_order();
    let to = least(before.entries().len() as int, greatest(before.notified() as int, n));
    lemma_stays(before, after, to, false, woken, woken_after, other);
}

/// Whoever gives up leaves the others in the list, and takes no notification from them.
pub proof fn law_others_stay_drop(
    listener: &EventListener,
    before: &Event,
    after: &Event,
    woken: Seq<Wake>,
    woken_after: Seq<Wake>,
    other: &EventListener,
)
    requires
        before.wf(),
        listener.active(before),
        other.active(before),
        listener.entry() != other.entry(),
        drops(listener, before, after, woken, woken_after),
    ensures
        undisturbed(other, before, after),
{
    before.lemma_order();
    let at = listener.place(before);
    assert(before.entries()[at].id == listener.entry()->0);
    assert(before.entries()[other.place(before)].id == other.entry()->0);
    let between = choose|between: Event|
        {
            &&& #[trigger] removes(before, &between, at)
            &&& match listener.state(before) {
                State::Notified(true) => notifies_additional(
                    &between,
                    after,
                    1,
                    woken,
                    woken_after,
                ),
                State::Notified(false) => notifies(&between, after, 1, woken, woken_after),
                _ => keeps(&between, after) && woken_after == woken,
            }
        };
    law_others_stay(before, &between, at, other);
    between.lemma_order();
    match listener.state(before) {
        State::Notified(true) => {
            lemma_stays(
                &between,
                after,
                least(between.entries().len() as int, between.notified() + 1int),
                true,
                woken,
                woken_after,
                other,
            );
        },
        State::Notified(false) => {
            law_others_stay_notify(&between, after, 1, woken, woken_after, other);
        },
        _ => {},
    }
}

/// No notification is lost: if a listener is given up that was notified, and there are others,
/// then afterwards one of them is, and whoever was notified still is.
pub proof fn law_passed_on(
    listener: &EventListener,
    before: &Event,
    after: &Event,
    woken: Seq<Wake>,
    woken_after: Seq<Wake>,
)
    requires
        before.wf(),
        listener.active(before),
        listener.state(before) is Notified,
        before.entries().len() > 1,
        drops(listener, before, after, woken, woken_after),
    ensures
        after.notified() > 0,
        after.notified() >= before.notified() - 1,
        listener.state(before) == State::Notified(true) && before.notified()
            < before.entries().len() ==> after.notified() == before.notified(),
{
    before.lemma_order();
}

/// If anybody listens, somebody is notified.
pub open spec fn stirs(event: &Event) -> bool {
    event.entries().len() > 0 ==> event.notified() > 0
}

/// A notification reaches as many as it is for, or all where there are fewer, and those who have
/// listened for the longest; whoever was notified stays so, everybody stays in the list, and nobody
/// is notified who need not be.
pub proof fn law_notifies(
    before: &Event,
    after: &Event,
    n: int,
    woken: Seq<Wake>,
    woken_after: Seq<Wake>,
)
    requires
        before.wf(),
        notifies(before, after, n, woken, woken_after),
    ensures
        after.entries().len() == before.entries().len(),
        after.notified() >= before.notified(),
        after.notified() >= n || after.notified() == after.entries().len(),
        after.notified() == before.notified() || after.notified() <= n,
        n > 0 ==> stirs(after),
        forall|i: int|
            0 <= i < after.entries().len() ==> (#[trigger] after.entries()[i]).id
                == before.entries()[i].id && (after.entries()[i].state is Notified <==> i
                < after.notified()),
        forall|i: int|
            before.notified() <= i < after.notified() ==> (#[trigger] after.entries()[i]).state
                == State::Notified(false),
        forall|i: int|
            0 <= i < after.entries().len() && !(before.notified() <= i < after.notified())
                ==> #[trigger] after.entries()[i] == before.entries()[i],
        woken.is_prefix_of(woken_after),
{
    before.lemma_order();
    after.lemma_order();
    assert(woken_after.take(woken.len() as int) =~= woken);
}

/// A notification that adds to those before it reaches as many more as it is for, or all that are
/// left.
pub proof fn law_notifies_additional(
    before: &Event,
    after: &Event,
    n: int,
    woken: Seq<Wake>,
    woken_after: Seq<Wake>,
)
    requires
        before.wf(),
        0 <= n,
        notifies_additional(before, after, n, woken, woken_after),
    ensures
        forall|i: int|
            before.notified() <= i < after.notified() ==> (#[trigger] after.entries()[i]).state
                == State::Notified(true),
        forall|i: int|
            0 <= i < after.entries().len() && !(before.notified() <= i < after.notified())
                ==> #[trigger] after.entries()[i] == before.entries()[i],
        after.entries().len() == before.entries().len(),
        after.notified() == before.notified() + n || after.notified() == after.entries().len()
            && after.notified() < before.notified() + n,
        n > 0 ==> stirs(after),
        forall|i: int|
            0 <= i < after.entries().len() ==> (#[trigger] after.entries()[i]).id
                == before.entries()[i].id && (after.entries()[i].state is Notified <==> i
                < after.notified()),
        woken.is_prefix_of(woken_after),
{
    before.lemma_order();
    after.lemma_order();
    assert(woken_after.take(woken.len() as int) =~= woken);
}

proof fn lemma_wakes_one(entries: Seq<Entry>, i: int, wake: Wake)
    requires
        0 <= i < entries.len(),
        entries[i].state.wake() == seq![wake],
    ensures
        wakes(entries).contains(wake),
    decreases entries.len(),
{
    let front = wakes(entries.drop_last());
    let back = entries.last().state.wake();
    if i == entries.len() - 1 {
        assert(back[0] == wake);
        assert((front + back)[front.len() as int] == wake);
    } else {
        assert(entries.drop_last()[i] == entries[i]);
        lemma_wakes_one(entries.drop_last(), i, wake);
        let k = choose|k: int| 0 <= k < front.len() && front[k] == wake;
        assert((front + back)[k] == wake);
    }
}

/// Whoever is notified is woken up: the task that polled a listener, or the thread that is parked on
/// it.
pub proof fn law_notified_is_woken(
    before: &Event,
    after: &Event,
    to: int,
    additional: bool,
    woken: Seq<Wake>,
    woken_after: Seq<Wake>,
    listener: &EventListener,
)
    requires
        before.wf(),
        before.notified() <= to <= before.entries().len(),
        notifies_upto(before, after, to, additional, woken, woken_after),
        listener.active(before),
        !(listener.state(before) is Notified),
        listener.state(after) is Notified,
    ensures
        listener.state(before) matches State::Polling(waker) ==> woken_after.skip(
            woken.len() as int,
        ).contains(Wake::Task(waker)),
        listener.state(before) matches State::Waiting(thread) ==> woken_after.skip(
            woken.len() as int,
        ).contains(Wake::Thread(thread)),
{
    before.lemma_order();
    lemma_notifies_upto(before, after, to, additional, woken, woken_after, listener);
    let at = listener.place(before);
    assert(before.entries()[at].id == listener.entry()->0);
    let from = before.notified() as int;
    let part = before.entries().subrange(from, to);
    assert(part[at - from] == before.entries()[at]);
    assert(woken_after.skip(woken.len() as int) =~= wakes(part));
    match listener.state(before) {
        State::Polling(waker) => {
            lemma_wakes_one(part, at - from, Wake::Task(waker));
        },
        State::Waiting(thread) => {
            lemma_wakes_one(part, at - from, Wake::Thread(thread));
        },
        _ => {},
    }
}

/// What giving a listener up leaves behind: one listener fewer, and as many notifications as before
/// for the others, as far as there are others.
pub proof fn law_drop_counts(
    listener: &EventListener,
    before: &Event,
    after: &Event,
    woken: Seq<Wake>,
    woken_after: Seq<Wake>,
)
    requires
        before.wf(),
        listener.active(before),
        drops(listener, before, after, woken, woken_after),
    ensures
        after.entries().len() == before.entries().len() - 1,
        listener.state(before) is Notified ==> stirs(after),
        !(listener.state(before) is Notified) ==> after.notified() == before.notified(),
        listener.state(before) is Notified ==> after.notified() >= before.notified() - 1,
{
    before.lemma_order();
    let at = listener.place(before);
    assert(before.entries()[at].id == listener.entry()->0);
    let between = choose|between: Event|
        {
            &&& #[trigger] removes(before, &between, at)
            &&& match listener.state(before) {
                State::Notified(true) => notifies_additional(
                    &between,
                    after,
                    1,
                    woken,
                    woken_after,
                ),
                State::Notified(false) => notifies(&between, after, 1, woken, woken_after),
                _ => keeps(&between, after) && woken_after == woken,
            }
        };
    between.lemma_order();
    match listener.state(before) {
        State::Notified(true) => {
            law_notifies_additional(&between, after, 1, woken, woken_after);
        },
        State::Notified(false) => {
            law_notifies(&between, after, 1, woken, woken_after);
        },
        _ => {},
    }
}

} // verus!
