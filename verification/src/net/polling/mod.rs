//! Waiting for sockets to become readable or writable.

pub mod epoll;
pub mod kqueue;
pub mod wepoll;

use vstd::prelude::*;
use crate::io::error::{Error, ErrorKind};

verus! {

/// The key that is not for sockets.
pub const NOTIFY_KEY: usize = usize::MAX;

/// What somebody is interested in, or what has happened.
#[derive(Clone, Copy, Debug, PartialEq, Eq, Structural)]
pub struct Event {
    pub key: usize,
    pub readable: bool,
    pub writable: bool,
}

impl Event {
    pub fn all(key: usize) -> (r: Event)
        ensures
            r == (Event { key, readable: true, writable: true }),
    {
        Event { key, readable: true, writable: true }
    }

    pub fn readable(key: usize) -> (r: Event)
        ensures
            r == (Event { key, readable: true, writable: false }),
    {
        Event { key, readable: true, writable: false }
    }

    pub fn writable(key: usize) -> (r: Event)
        ensures
            r == (Event { key, readable: false, writable: true }),
    {
        Event { key, readable: false, writable: true }
    }

    pub fn none(key: usize) -> (r: Event)
        ensures
            r == (Event { key, readable: false, writable: false }),
    {
        Event { key, readable: false, writable: false }
    }
}

/// The events among `all` that are for sockets.
pub open spec fn for_sockets(all: Seq<Event>) -> Seq<Event>
    decreases all.len(),
{
    if all.len() == 0 {
        Seq::empty()
    } else if all.last().key != usize::MAX {
        for_sockets(all.drop_last()).push(all.last())
    } else {
        for_sockets(all.drop_last())
    }
}

/// Whether a wait is to be interrupted.
pub struct Poller {
    notified: bool,
}

impl Poller {
    /// The wait was told to end.
    pub closed spec fn notified(&self) -> bool {
        self.notified
    }

    pub fn new() -> (r: Self)
        ensures
            !r.notified(),
    {
        Poller { notified: false }
    }

    /// Whether a socket may be added or modified with this interest.
    pub fn check(interest: &Event) -> (r: Result<(), Error>)
        ensures
            (r is Ok) == (interest.key != NOTIFY_KEY),
            r matches Err(error) ==> error.says(
                ErrorKind::InvalidInput,
                "the key is not allowed to be `usize::MAX`"@,
            ),
    {
        if interest.key == NOTIFY_KEY {
            return Err(
                Error::new(ErrorKind::InvalidInput, "the key is not allowed to be `usize::MAX`"),
            );
        }
        Ok(())
    }

    /// Tells a wait to end; says whether the system has to be told too, which it has unless it was.
    pub fn notify(&mut self) -> (r: bool)
        ensures
            final(self).notified(),
            r == !old(self).notified(),
    {
        let first = !self.notified;
        self.notified = true;
        first
    }

    /// After a wait: adds what happened to sockets to `events`; says how many events that is.
    pub fn waited(&mut self, happened: &Vec<Event>, events: &mut Vec<Event>) -> (r: usize)
        ensures
            !final(self).notified(),
            final(events)@ == old(events)@ + for_sockets(happened@),
            r == for_sockets(happened@).len(),
    {
        self.notified = false;
        let mut i: usize = 0;
        let mut count: usize = 0;
        assert(happened@.take(0) =~= Seq::<Event>::empty());
        assert(events@ =~= old(events)@ + for_sockets(happened@.take(0)));
        while i < happened.len()
            invariant
                i <= happened@.len(),
                !self.notified,
                count <= i,
                count == for_sockets(happened@.take(i as int)).len(),
                events@ == old(events)@ + for_sockets(happened@.take(i as int)),
            decreases happened@.len() - i,
        {
            let ev: Event = happened[i];
            assert(happened@.take(i + 1).drop_last() =~= happened@.take(i as int));
            if ev.key != usize::MAX {
                events.push(ev);
                count = count + 1;
                assert(events@ =~= old(events)@ + for_sockets(happened@.take(i + 1)));
            }
            i = i + 1;
        }
        assert(happened@.take(i as int) =~= happened@);
        count
    }
}

/// What waits for sockets sees no event of its own: after a wait no event has the key that is not
/// for sockets, and the others are all there in their order.
pub proof fn law_only_sockets(all: Seq<Event>)
    ensures
        forall|i: int|
            0 <= i < for_sockets(all).len() ==> (#[trigger] for_sockets(all)[i]).key != usize::MAX,
        (forall|i: int| 0 <= i < all.len() ==> (#[trigger] all[i]).key != usize::MAX)
            ==> for_sockets(all) == all,
    decreases all.len(),
{
    if all.len() > 0 {
        let rest = for_sockets(all.drop_last());
        law_only_sockets(all.drop_last());
        assert forall|i: int| 0 <= i < for_sockets(all).len() implies (#[trigger] for_sockets(
            all,
        )[i]).key != usize::MAX by {
            if i < rest.len() {
                assert(for_sockets(all)[i] == rest[i]);
            }
        }
        if forall|i: int| 0 <= i < all.len() ==> (#[trigger] all[i]).key != usize::MAX {
            assert forall|i: int| 0 <= i < all.len() - 1 implies (#[trigger] all.drop_last()[i]).key
                != usize::MAX by {
                assert(all[i].key != usize::MAX);
            }
            assert(all.drop_last().push(all.last()) =~= all);
        }
    }
}

/// Whatever happens to a socket is told, whatever else happens: each event by itself is told if it is
/// for a socket, and what is told of two runs of events is what is told of both, one after the other.
pub proof fn law_each_event_told(a: Seq<Event>, b: Seq<Event>, ev: Event)
    ensures
        for_sockets(a + b) == for_sockets(a) + for_sockets(b),
        for_sockets(seq![ev]) == (if ev.key == NOTIFY_KEY {
            Seq::empty()
        } else {
            seq![ev]
        }),
        for_sockets(Seq::empty()) == Seq::<Event>::empty(),
    decreases b.len(),
{
    reveal_with_fuel(for_sockets, 2);
    assert(seq![ev].drop_last() =~= Seq::empty());
    assert(Seq::<Event>::empty().push(ev) =~= seq![ev]);
    if b.len() == 0 {
        assert(a + b =~= a);
        assert(for_sockets(a) + Seq::empty() =~= for_sockets(a));
    } else {
        law_each_event_told(a, b.drop_last(), ev);
        assert((a + b).drop_last() =~= a + b.drop_last());
        assert((a + b).last() == b.last());
        assert(for_sockets(a + b) =~= for_sockets(a) + for_sockets(b));
    }
}

} // verus!
