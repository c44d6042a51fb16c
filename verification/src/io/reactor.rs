//! What goes round between the poller, the sockets and the timers.

use vstd::prelude::*;
use crate::io::error::{Error, ErrorKind};
use crate::io::source::{
    dispatched, lemma_to_wake, to_wake, Direction, Readiness, Source, Waiting,
};
use crate::io::timers::{due, law_on_time, lemma_map_at, sooner, wakes_of, TimerEntry, Timers};
use crate::net::polling::Event;
use crate::platform::queue::ConcurrentQueue;
use crate::task::{Context, Nanos, Wake, Waker};
use crate::utils::colo::Colo;

verus! {

/// How many changes to the timers may wait to be made.
pub const MAX_TIMER_OPS: usize = 1000;

/// A change to the timers.
#[derive(Clone, Copy, Debug, PartialEq, Eq, Structural)]
pub enum TimerOp {
    Insert(Nanos, usize, Waker),
    Remove(Nanos, usize),
}

/// The timers after a change.
pub open spec fn apply_op(map: Map<(Nanos, usize), Waker>, op: TimerOp) -> Map<
    (Nanos, usize),
    Waker,
> {
    match op {
        TimerOp::Insert(when, id, waker) => map.insert((when, id), waker),
        TimerOp::Remove(when, id) => map.remove((when, id)),
    }
}

/// The timers after all of `ops`, one after the other.
pub open spec fn apply_ops(map: Map<(Nanos, usize), Waker>, ops: Seq<TimerOp>) -> Map<
    (Nanos, usize),
    Waker,
>
    decreases ops.len(),
{
    if ops.len() == 0 {
        map
    } else {
        apply_op(apply_ops(map, ops.drop_last()), ops.last())
    }
}

proof fn lemma_apply_first(map: Map<(Nanos, usize), Waker>, ops: Seq<TimerOp>)
    requires
        ops.len() > 0,
    ensures
        apply_ops(apply_op(map, ops[0]), ops.drop_first()) == apply_ops(map, ops),
    decreases ops.len(),
{
    reveal_with_fuel(apply_ops, 2);
    let rest = ops.drop_first();
    if rest.len() == 0 {
        assert(ops.drop_last() =~= Seq::<TimerOp>::empty());
    } else {
        lemma_apply_first(map, ops.drop_last());
        assert(ops.drop_last().drop_first() =~= rest.drop_last());
        assert(rest.last() == ops.last());
    }
}

/// The shorter of two spans of time, each of which may be without end.
pub open spec fn shorter(a: Option<Nanos>, b: Option<Nanos>) -> Option<Nanos> {
    match (a, b) {
        (None, None) => None,
        (Some(t), None) => Some(t),
        (None, Some(t)) => Some(t),
        (Some(a), Some(b)) => Some(
            if a < b {
                a
            } else {
                b
            },
        ),
    }
}

/// The reactor.
pub struct Reactor {
    ticker: usize,
    sources: Colo<Source>,
    timers: Timers,
    timer_ops: ConcurrentQueue<TimerOp>,
    next_timer: usize,
}

impl Reactor {
    pub closed spec fn wf(&self) -> bool {
        &&& self.sources.wf()
        &&& self.sources.limit() == 0
        &&& forall|i: int|
            0 <= i < self.sources@.len() && (#[trigger] self.sources@[i]) is Some
                ==> self.sources@[i]->0.wf() && self.sources@[i]->0.key == i
        &&& self.timers.wf()
        &&& self.timer_ops.wf()
        &&& !self.timer_ops.closed()
        &&& self.timer_ops.limit() == Some(MAX_TIMER_OPS as nat)
    }

    /// How many rounds have begun, as far as the counter goes.
    pub closed spec fn round(&self) -> usize {
        self.ticker
    }

    /// The sockets, each under its key.
    pub closed spec fn sources(&self) -> Seq<Option<Source>> {
        self.sources@
    }

    pub open spec fn has_source(&self, key: usize) -> bool {
        key < self.sources().len() && self.sources()[key as int] is Some
    }

    pub open spec fn source(&self, key: usize) -> Source {
        self.sources()[key as int]->0
    }

    /// The keys that are free again, in the order in which they will be used.
    pub closed spec fn free_keys(&self) -> Seq<usize> {
        self.sources.vacancies()
    }

    /// The key that the next socket gets.
    pub open spec fn next_key(&self) -> usize {
        if self.free_keys().len() == 0 {
            self.sources().len() as usize
        } else {
            self.free_keys()[0]
        }
    }

    /// The number that the next timer gets.
    pub closed spec fn next_timer_id(&self) -> usize {
        self.next_timer
    }

    /// The timers, with the changes that wait to be made.
    pub closed spec fn timers(&self) -> Map<(Nanos, usize), Waker> {
        apply_ops(self.timers.map(), self.timer_ops.items())
    }

    /// The timers that stand in the order in which they go off, without the changes that wait.
    pub closed spec fn listed(&self) -> Seq<TimerEntry> {
        self.timers.entries()
    }

    /// No change to the timers waits to be made.
    pub closed spec fn settled(&self) -> bool {
        self.timer_ops.items().len() == 0
    }

    /// What a socket has to do with is as it was.
    pub open spec fn same_sources(&self, other: &Self) -> bool {
        self.sources() == other.sources() && self.free_keys() == other.free_keys()
    }

    /// What a timer has to do with is as it was.
    pub open spec fn same_timers(&self, other: &Self) -> bool {
        &&& self.timers() == other.timers()
        &&& self.listed() == other.listed()
        &&& self.next_timer_id() == other.next_timer_id()
    }

    pub fn new() -> (r: Self)
        ensures
            r.wf(),
            r.round() == 0,
            r.sources() == Seq::<Option<Source>>::empty(),
            r.free_keys() == Seq::<usize>::empty(),
            r.timers() == Map::<(Nanos, usize), Waker>::empty(),
            r.settled(),
            r.next_timer_id() == 1,
    {
        Reactor {
            ticker: 0,
            sources: Colo::new(),
            timers: Timers::new(),
            timer_ops: ConcurrentQueue::bounded(MAX_TIMER_OPS),
            next_timer: 1,
        }
    }

    pub fn ticker(&self) -> (r: usize)
        ensures
            r == self.round(),
    {
        self.ticker
    }

    /// Adds a socket; says its key. The poller is to be told of it, with no interest.
    pub fn add_io(&mut self, raw: i32) -> (key: usize)
        requires
            old(self).wf(),
        ensures
            final(self).wf(),
            final(self).round() == old(self).round(),
            final(self).same_timers(old(self)),
            key == old(self).next_key(),
            !old(self).has_source(key),
            final(self).has_source(key),
            final(self).source(key).raw == raw,
            final(self).source(key).key == key,
            final(self).source(key).read.fresh(),
            final(self).source(key).write.fresh(),
            final(self).sources() == (if key < old(self).sources().len() {
                old(self).sources().update(key as int, Some(final(self).source(key)))
            } else {
                old(self).sources().push(Some(final(self).source(key)))
            }),
            final(self).free_keys() == (if old(self).free_keys().len() > 0 {
                old(self).free_keys().drop_first()
            } else {
                Seq::<usize>::empty()
            }),
    {
        proof {
            self.sources.lemma_vacancies();
            let vacancies = self.sources.vacancies();
            assert(vacancies.len() > 0 ==> self.sources@[vacancies[0] as int] is None);
        }
        let key: usize = self.sources.next_vacant();
        let ghost before = self.sources@;
        let source = Source::new(raw, key);
        self.sources.insert(source);
        proof {
            let after = self.sources@;
            assert forall|i: int| 0 <= i < after.len() && (#[trigger] after[i]) is Some implies {
                after[i]->0.wf() && after[i]->0.key == i
            } by {
                if i != key {
                    assert(after[i] == before[i]);
                }
            }
        }
        key
    }

    /// Removes a socket; says which one it was. The poller is to be told of it.
    pub fn remove_io(&mut self, key: usize) -> (r: Option<i32>)
        requires
            old(self).wf(),
        ensures
            final(self).wf(),
            final(self).round() == old(self).round(),
            final(self).same_timers(old(self)),
            r == (if old(self).has_source(key) {
                Some(old(self).source(key).raw)
            } else {
                None
            }),
            if old(self).has_source(key) {
                &&& final(self).sources() == old(self).sources().update(key as int, None)
                &&& final(self).free_keys() == seq![key] + old(self).free_keys()
            } else {
                final(self).same_sources(old(self))
            },
    {
        match self.sources.remove(key) {
            Some(source) => Some(source.raw),
            None => None,
        }
    }

    /// What comes of asking for whoever polls a socket whether it is ready.
    pub open spec fn asked(
        &self,
        key: usize,
        dir: Direction,
        cx: &Context,
        r: Readiness,
        after: &Reactor,
        cx_after: &Context,
    ) -> bool {
        &&& after.wf()
        &&& after.round() == self.round()
        &&& after.same_timers(self)
        &&& after.free_keys() == self.free_keys()
        &&& cx_after.waker == cx.waker
        &&& exists|source: Source|
            after.sources() == #[trigger] self.sources().update(key as int, Some(source))
                && polled(self.source(key), source, dir, self.round(), cx, cx_after, r)
    }

    /// Asks for whoever polls a socket whether it is ready.
    pub fn poll_ready(&mut self, key: usize, dir: Direction, cx: &mut Context) -> (r: Readiness)
        requires
            old(self).wf(),
            old(self).has_source(key),
        ensures
            old(self).asked(key, dir, old(cx), r, final(self), final(cx)),
    {
        let ticker: usize = self.ticker;
        let ghost before = self.sources@;
        assert(before[key as int]->0.wf());
        match self.sources.get_mut(key) {
            Some(source) => {
                let r = source.poll_ready(dir, cx, ticker);
                let ghost after = *source;
                proof {
                    assert(polled(before[key as int]->0, after, dir, ticker, old(cx), cx, r));
                }
                assert(self.sources@ == before.update(key as int, Some(after)));
                r
            },
            None => Readiness::Ready,
        }
    }

    /// Adds a timer; says its number.
    pub fn add_timer(&mut self, when: Nanos, waker: &Waker) -> (id: usize)
        requires
            old(self).wf(),
        ensures
            final(self).wf(),
            final(self).round() == old(self).round(),
            final(self).same_sources(old(self)),
            id == old(self).next_timer_id(),
            final(self).next_timer_id() == id.wrapping_add(1),
            final(self).timers() == old(self).timers().insert((when, id), *waker),
    {
        let id: usize = self.next_timer;
        self.next_timer = id.wrapping_add(1);
        self.push_op(TimerOp::Insert(when, id, *waker));
        id
    }

    /// Removes a timer.
    pub fn remove_timer(&mut self, when: Nanos, id: usize)
        requires
            old(self).wf(),
        ensures
            final(self).wf(),
            final(self).round() == old(self).round(),
            final(self).same_sources(old(self)),
            final(self).next_timer_id() == old(self).next_timer_id(),
            final(self).timers() == old(self).timers().remove((when, id)),
    {
        self.push_op(TimerOp::Remove(when, id));
    }

    /// Adds a change to those that wait, which are made first if there is no room for it.
    fn push_op(&mut self, op: TimerOp)
        requires
            old(self).wf(),
        ensures
            final(self).wf(),
            final(self).round() == old(self).round(),
            final(self).same_sources(old(self)),
            final(self).next_timer_id() == old(self).next_timer_id(),
            final(self).timers() == apply_op(old(self).timers(), op),
    {
        let ghost items = self.timer_ops.items();
        proof {
            assert(items.push(op).drop_last() =~= items);
        }
        if self.timer_ops.push(op).is_err() {
            self.process_timer_ops();
            let ghost none = self.timer_ops.items();
            proof {
                assert(none.push(op).drop_last() =~= none);
            }
            self.timer_ops.push(op).ok();
        }
    }

    /// Makes the changes to the timers that wait.
    fn process_timer_ops(&mut self)
        requires
            old(self).wf(),
        ensures
            final(self).wf(),
            final(self).round() == old(self).round(),
            final(self).same_sources(old(self)),
            final(self).next_timer_id() == old(self).next_timer_id(),
            final(self).timers() == old(self).timers(),
            final(self).settled(),
            final(self).timers.map() == final(self).timers(),
    {
        let mut left: usize = MAX_TIMER_OPS;
        proof {
            self.timer_ops.lemma_within();
        }
        let mut done = false;
        while left > 0 && !done
            invariant
                self.wf(),
                self.ticker == old(self).ticker,
                self.sources == old(self).sources,
                self.next_timer == old(self).next_timer,
                self.timers() == old(self).timers(),
                self.timer_ops.items().len() <= left,
                done ==> self.timer_ops.items().len() == 0,
            decreases left, (!done) as int,
        {
            let ghost ops = self.timer_ops.items();
            let ghost map = self.timers.map();
            match self.timer_ops.pop() {
                Ok(op) => {
                    proof {
                        lemma_apply_first(map, ops);
                    }
                    match op {
                        TimerOp::Insert(when, id, waker) => self.timers.insert(when, id, waker),
                        TimerOp::Remove(when, id) => self.timers.remove(when, id),
                    }
                    left = left - 1;
                },
                Err(_) => {
                    done = true;
                },
            }
        }
    }

    /// Makes the changes to the timers that wait, and then wakes up those whose timers were to go
    /// off before `now`. Says how long it is until the next timer.
    fn process_timers(&mut self, now: Nanos, woken: &mut Vec<Wake>) -> (r: Option<Nanos>)
        requires
            old(self).wf(),
        ensures
            final(self).wf(),
            final(self).round() == old(self).round(),
            final(self).same_sources(old(self)),
            final(self).next_timer_id() == old(self).next_timer_id(),
            timers_processed(old(self), final(self), now, old(woken)@, final(woken)@, r),
    {
        self.process_timer_ops();
        let ghost entries = self.timers.entries();
        let r = self.timers.expire(now, woken);
        assert(listed_in_full(entries, old(self).timers()));
        r
    }

    /// Begins a round, which is to take no longer than `timeout`. Says how long the poller is to
    /// wait.
    pub fn begin_react(&mut self, timeout: Option<Nanos>, now: Nanos, woken: &mut Vec<Wake>) -> (r:
        Option<Nanos>)
        requires
            old(self).wf(),
        ensures
            final(self).wf(),
            final(self).round() == old(self).round().wrapping_add(1),
            final(self).same_sources(old(self)),
            final(self).next_timer_id() == old(self).next_timer_id(),
            exists|next: Option<Nanos>| #[trigger]
                timers_processed(old(self), final(self), now, old(woken)@, final(woken)@, next) && r
                    == shorter(next, timeout),
            // The poller waits no longer than it may.
            timeout matches Some(t) ==> (r matches Some(wait) && wait <= t),
            final(self).round() != old(self).round(),
    {
        let next_timer = self.process_timers(now, woken);
        self.ticker = self.ticker.wrapping_add(1);
        assert(timers_processed(old(self), self, now, old(woken)@, woken@, next_timer));
        match (next_timer, timeout) {
            (None, None) => None,
            (Some(t), None) => Some(t),
            (None, Some(t)) => Some(t),
            (Some(a), Some(b)) => if a < b {
                Some(a)
            } else {
                Some(b)
            },
        }
    }

    /// Ends a round in which nothing happened to the sockets. If the poller waited, timers may have
    /// gone off.
    pub fn react_idle(&mut self, waited: Option<Nanos>, now: Nanos, woken: &mut Vec<Wake>)
        requires
            old(self).wf(),
        ensures
            final(self).wf(),
            final(self).round() == old(self).round(),
            final(self).same_sources(old(self)),
            final(self).next_timer_id() == old(self).next_timer_id(),
            waited == Some(0u128) ==> *final(self) == *old(self) && final(woken)@ == old(woken)@,
            waited != Some(0u128) ==> exists|next: Option<Nanos>| #[trigger]
                timers_processed(old(self), final(self), now, old(woken)@, final(woken)@, next),
    {
        let at_once = match waited {
            Some(t) => t == 0,
            None => false,
        };
        if !at_once {
            let next = self.process_timers(now, woken);
            assert(timers_processed(old(self), self, now, old(woken)@, woken@, next));
        }
    }

    /// Something happened to a socket in this round: wakes up those who waited for it. Says what
    /// the poller is to be told: the socket, and what those who still wait are interested in.
    pub fn react_event(&mut self, ev: &Event, woken: &mut Vec<Wake>) -> (r: Option<(i32, Event)>)
        requires
            old(self).wf(),
        ensures
            final(self).wf(),
            dispatches(old(self), *ev, old(woken)@, r, final(self), final(woken)@),
    {
        let tick: usize = self.ticker;
        let ghost before = self.sources@;
        if ev.key < self.sources.slot_count() {
            assert(before[ev.key as int] is Some ==> before[ev.key as int]->0.wf());
        }
        match self.sources.get_mut(ev.key) {
            Some(source) => {
                let raw = source.raw;
                match source.dispatch(ev, tick, woken) {
                    Some(interest) => Some((raw, interest)),
                    None => None,
                }
            },
            None => None,
        }
    }

    /// What a round comes to for which the poller failed: an interrupted wait is no failure.
    pub fn react_failed(error: Error) -> (r: Result<(), Error>)
        ensures
            r == (if error.kind is Interrupted {
                Ok(())
            } else {
                Err(error)
            }),
    {
        match error.kind {
            ErrorKind::Interrupted => Ok(()),
            _ => Err(error),
        }
    }

    /// The poller has waited for `timeout` at most, and `res` came of it: takes note of what
    /// happened, at the time `now`. Gives what there is to be done first, and the round for the
    /// rest.
    pub fn waited(
        &mut self,
        res: Result<Vec<Event>, Error>,
        timeout: Option<Nanos>,
        now: Nanos,
        woken: &mut Vec<Wake>,
    ) -> (r: (Round, ReactStep))
        requires
            old(self).wf(),
        ensures
            final(self).wf(),
            takes_note(
                old(self),
                res,
                timeout,
                now,
                old(woken)@,
                r.0,
                r.1,
                final(self),
                final(woken)@,
            ),
    {
        match res {
            Err(error) => {
                let none: Vec<Event> = Vec::new();
                (Round { events: none, next: 0 }, ReactStep::Done(Reactor::react_failed(error)))
            },
            Ok(events) => {
                let idle = events.len() == 0;
                let mut round = Round { events, next: 0 };
                if idle {
                    self.react_idle(timeout, now, woken);
                    (round, ReactStep::Done(Ok(())))
                } else {
                    let step = self.advance(&mut round, woken);
                    (round, step)
                }
            },
        }
    }

    /// The poller was told of an interest, and `res` came of it: goes on with the round, which an
    /// error breaks off.
    pub fn told(&mut self, round: &mut Round, res: Result<(), Error>, woken: &mut Vec<Wake>) -> (r:
        ReactStep)
        requires
            old(self).wf(),
            old(round).next <= old(round).events@.len(),
        ensures
            final(self).wf(),
            final(round).events@ == old(round).events@,
            match res {
                Err(error) => {
                    &&& r == ReactStep::BrokenOff(error)
                    &&& *final(self) == *old(self)
                    &&& final(woken)@ == old(woken)@
                },
                Ok(_) => advances(
                    old(self),
                    old(round).events@,
                    old(round).next as int,
                    old(woken)@,
                    r,
                    final(round).next,
                    final(self),
                    final(woken)@,
                ),
            },
    {
        match res {
            Err(error) => ReactStep::BrokenOff(error),
            Ok(_) => self.advance(round, woken),
        }
    }

    /// Goes through the events of a round up to one of which the poller is to be told.
    fn advance(&mut self, round: &mut Round, woken: &mut Vec<Wake>) -> (r: ReactStep)
        requires
            old(self).wf(),
            old(round).next <= old(round).events@.len(),
        ensures
            final(self).wf(),
            final(round).events@ == old(round).events@,
            advances(
                old(self),
                old(round).events@,
                old(round).next as int,
                old(woken)@,
                r,
                final(round).next,
                final(self),
                final(woken)@,
            ),
    {
        let ghost events = round.events@;
        let ghost first = round.next as int;
        while round.next < round.events.len()
            invariant
                self.wf(),
                events == old(round).events@,
                round.events@ == events,
                first == old(round).next,
                first <= round.next <= events.len(),
                passes(old(self), events, first, round.next as int, old(woken)@, self, woken@),
            decreases events.len() - round.next,
        {
            let ghost mid = *self;
            let ghost mid_woken = woken@;
            let ev: Event = round.events[round.next];
            let told = self.react_event(&ev, woken);
            round.next = round.next + 1;
            match told {
                Some((raw, interest)) => {
                    let r = ReactStep::Modify(raw, interest);
                    assert(stops_at(
                        old(self),
                        events,
                        first,
                        old(woken)@,
                        mid,
                        mid_woken,
                        r,
                        round.next,
                        self,
                        woken@,
                    ));
                    return r;
                },
                None => {
                    assert(dispatches(&mid, ev, mid_woken, None, self, woken@));
                },
            }
        }
        ReactStep::Done(Ok(()))
    }

    /// Asks for somebody who waits for a socket whether it is ready.
    pub fn poll_waiting(&mut self, key: usize, waiting: &mut Waiting, cx: &Context) -> (r:
        Readiness)
        requires
            old(self).wf(),
            old(self).has_source(key),
            old(waiting).wf(&old(self).source(key)),
        ensures
            final(self).wf(),
            final(self).round() == old(self).round(),
            final(self).same_timers(old(self)),
            final(self).has_source(key),
            final(waiting).wf(&final(self).source(key)),
            final(self).free_keys() == old(self).free_keys(),
            final(self).sources() == old(self).sources().update(
                key as int,
                Some(final(self).source(key)),
            ),
            old(waiting).asks(
                &old(self).source(key),
                old(self).round(),
                cx,
                r,
                final(waiting),
                &final(self).source(key),
            ),
    {
        let ticker: usize = self.ticker;
        let ghost before = self.sources@;
        assert(before[key as int]->0.wf());
        match self.sources.get_mut(key) {
            Some(source) => waiting.poll(source, cx, ticker),
            None => Readiness::Ready,
        }
    }

    /// Stops waiting for a socket.
    pub fn drop_waiting(&mut self, key: usize, waiting: Waiting)
        requires
            old(self).wf(),
            old(self).has_source(key),
            waiting.wf(&old(self).source(key)),
        ensures
            final(self).wf(),
            final(self).round() == old(self).round(),
            final(self).same_timers(old(self)),
            final(self).has_source(key),
            final(self).free_keys() == old(self).free_keys(),
            final(self).sources() == old(self).sources().update(
                key as int,
                Some(final(self).source(key)),
            ),
            waiting.stops(&old(self).source(key), &final(self).source(key)),
    {
        let ghost before = self.sources@;
        assert(before[key as int]->0.wf());
        match self.sources.get_mut(key) {
            Some(source) => waiting.drop(source),
            None => {},
        }
    }
}

/// What is to be done next in a round.
pub enum ReactStep {
    /// The poller is told of this interest in the socket, and then the round goes on.
    Modify(i32, Event),
    /// The round is over, and this comes of it: those who were woken are woken up.
    Done(Result<(), Error>),
    /// The round is broken off with this error, before anybody is woken up.
    BrokenOff(Error),
}

/// What happened in a round, and how much of it was dealt with.
pub struct Round {
    pub events: Vec<Event>,
    pub next: usize,
}

/// What something that happened to a socket led to: those who waited for it are woken up, and the
/// poller is to be told what those who still wait are interested in.
pub open spec fn dispatches(
    before: &Reactor,
    ev: Event,
    woken: Seq<Wake>,
    r: Option<(i32, Event)>,
    after: &Reactor,
    woken_after: Seq<Wake>,
) -> bool {
    &&& after.round() == before.round()
    &&& after.same_timers(before)
    &&& after.free_keys() == before.free_keys()
    &&& if before.has_source(ev.key) {
        let source = before.source(ev.key);
        let source_after = after.source(ev.key);
        &&& after.sources() == before.sources().update(ev.key as int, Some(source_after))
        &&& woken_after == woken + dispatched(&source, &ev)
        &&& source_after.raw == source.raw
        &&& source_after.key == source.key
        &&& ev.readable ==> source.read.released(before.round(), &source_after.read)
        &&& !ev.readable ==> source_after.read == source.read
        &&& ev.writable ==> source.write.released(before.round(), &source_after.write)
        &&& !ev.writable ==> source_after.write == source.write
        &&& r == (if source_after.read.idle() && source_after.write.idle() {
            None
        } else {
            Some((source_after.raw, source_after.event()))
        })
    } else {
        &&& after.sources() == before.sources()
        &&& woken_after == woken
        &&& r is None
    }
}

/// The events from `i` on up to `j` were dealt with, one after the other, and the poller was to be
/// told of none.
pub open spec fn passes(
    before: &Reactor,
    events: Seq<Event>,
    i: int,
    j: int,
    woken: Seq<Wake>,
    after: &Reactor,
    woken_after: Seq<Wake>,
) -> bool
    decreases j - i,
{
    if j <= i {
        *after == *before && woken_after == woken
    } else {
        exists|mid: Reactor, mid_woken: Seq<Wake>|
            {
                &&& passes(before, events, i, j - 1, woken, &mid, mid_woken)
                &&& #[trigger] dispatches(
                    &mid,
                    events[j - 1],
                    mid_woken,
                    None,
                    after,
                    woken_after,
                )
            }
    }
}

/// The last of the events from `i` on up to `j` is the first one of which the poller is to be told.
pub open spec fn stops_at(
    before: &Reactor,
    events: Seq<Event>,
    i: int,
    woken: Seq<Wake>,
    mid: Reactor,
    mid_woken: Seq<Wake>,
    r: ReactStep,
    j: usize,
    after: &Reactor,
    woken_after: Seq<Wake>,
) -> bool {
    &&& i < j <= events.len()
    &&& passes(before, events, i, j - 1, woken, &mid, mid_woken)
    &&& r matches ReactStep::Modify(raw, interest) && dispatches(
        &mid,
        events[j - 1],
        mid_woken,
        Some((raw, interest)),
        after,
        woken_after,
    )
}

/// What going through the events of a round from `i` on comes to.
pub open spec fn advances(
    before: &Reactor,
    events: Seq<Event>,
    i: int,
    woken: Seq<Wake>,
    r: ReactStep,
    next: usize,
    after: &Reactor,
    woken_after: Seq<Wake>,
) -> bool {
    match r {
        ReactStep::Modify(_, _) => exists|mid: Reactor, mid_woken: Seq<Wake>| #[trigger]
            stops_at(
                before,
                events,
                i,
                woken,
                mid,
                mid_woken,
                r,
                next,
                after,
                woken_after,
            ),
        ReactStep::Done(res) => {
            &&& res == Ok::<(), Error>(())
            &&& next == events.len()
            &&& passes(before, events, i, events.len() as int, woken, after, woken_after)
        },
        ReactStep::BrokenOff(_) => false,
    }
}

/// What polling a socket did to it.
pub open spec fn polled(
    before: Source,
    after: Source,
    dir: Direction,
    round: usize,
    cx: &Context,
    cx_after: &Context,
    r: Readiness,
) -> bool {
    let side = before.interest(dir);
    let side_after = after.interest(dir);
    &&& after.same_but(&before, dir)
    &&& side_after.tick() == side.tick()
    &&& side_after.slots() == side.slots()
    &&& side_after.free() == side.free()
    &&& if crate::io::source::ready_since(side.tick(), side.ticks()) {
        &&& r is Ready
        &&& side_after.ticks() is None
        &&& side_after.waker() == side.waker()
        &&& cx_after.woken@ == cx.woken@
    } else if side.waker() == Some(cx.waker) {
        &&& r == Readiness::Pending(None)
        &&& side_after.ticks() == side.ticks()
        &&& side_after.waker() == side.waker()
        &&& cx_after.woken@ == cx.woken@
    } else {
        &&& r == Readiness::Pending(
            if side.idle() {
                Some(after.event())
            } else {
                None
            },
        )
        &&& side_after.ticks() == Some((round, side.tick()))
        &&& side_after.waker() == Some(cx.waker)
        &&& cx_after.woken@ == (match side.waker() {
            Some(waker) => cx.woken@.push(Wake::Task(waker)),
            None => cx.woken@,
        })
    }
}

/// That `entries` are the timers of `map`, in the order in which they go off.
pub open spec fn listed_in_full(
    entries: Seq<TimerEntry>,
    map: Map<(Nanos, usize), Waker>,
) -> bool {
    crate::io::timers::ordered(entries) && crate::io::timers::as_map(entries) == map
}

/// What processing the timers did: all changes were made, those due before `now` are out and whoever
/// waited for them is woken up, and the rest is listed.
pub open spec fn timers_processed(
    before: &Reactor,
    after: &Reactor,
    now: Nanos,
    woken: Seq<Wake>,
    woken_after: Seq<Wake>,
    next: Option<Nanos>,
) -> bool {
    exists|entries: Seq<TimerEntry>|
        {
            let n = due(entries, now);
            &&& #[trigger] listed_in_full(entries, before.timers())
            &&& n <= entries.len()
            &&& after.settled()
            &&& after.listed() == entries.skip(n as int)
            &&& listed_in_full(after.listed(), after.timers())
            &&& woken_after == woken + wakes_of(entries.take(n as int))
            &&& next == (if n > 0 {
                Some(0u128)
            } else if after.listed().len() > 0 {
                Some((after.listed()[0].when - now) as Nanos)
            } else {
                None
            })
        }
}

/// What comes of a wait for `timeout` at most of which `res` came.
pub open spec fn takes_note(
    before: &Reactor,
    res: Result<Vec<Event>, Error>,
    timeout: Option<Nanos>,
    now: Nanos,
    woken: Seq<Wake>,
    round: Round,
    r: ReactStep,
    after: &Reactor,
    woken_after: Seq<Wake>,
) -> bool {
    match res {
        Err(error) => {
            &&& r == ReactStep::Done(
                if error.kind is Interrupted {
                    Ok(())
                } else {
                    Err(error)
                },
            )
            &&& *after == *before
            &&& woken_after == woken
        },
        Ok(events) => if events@.len() == 0 {
            &&& r == ReactStep::Done(Ok(()))
            &&& after.round() == before.round()
            &&& after.same_sources(before)
            &&& after.next_timer_id() == before.next_timer_id()
            &&& if timeout == Some(0u128) {
                &&& *after == *before
                &&& woken_after == woken
            } else {
                exists|next: Option<Nanos>| #[trigger]
                    timers_processed(
                        before,
                        after,
                        now,
                        woken,
                        woken_after,
                        next,
                    )
            }
        } else {
            &&& round.events@ == events@
            &&& advances(
                before,
                events@,
                0,
                woken,
                r,
                round.next,
                after,
                woken_after,
            )
        },
    }
}

/// What a round makes of each timer: if it was to go off before `now`, whoever waits for it is woken
/// up and it is out; otherwise it stays, and the poller waits no longer than until it goes off. And
/// nobody is woken up but by a timer that was to go off.
pub proof fn law_round(
    before: &Reactor,
    after: &Reactor,
    now: Nanos,
    woken: Seq<Wake>,
    woken_after: Seq<Wake>,
    next: Option<Nanos>,
    key: (Nanos, usize),
)
    requires
        timers_processed(before, after, now, woken, woken_after, next),
    ensures
        after.timers().contains_key(key) <==> before.timers().contains_key(key) && key.0 >= now,
        after.timers().contains_key(key) ==> after.timers()[key] == before.timers()[key],
        before.timers().contains_key(key) && key.0 < now ==> woken_after.contains(
            Wake::Task(before.timers()[key]),
        ) && next == Some(0u128),
        before.timers().contains_key(key) && key.0 >= now ==> next is Some && next->0 <= key.0 - now,
        woken.is_prefix_of(woken_after),
        forall|i: int|
            woken.len() <= i < woken_after.len() ==> exists|k: (Nanos, usize)| #[trigger]
                before.timers().contains_key(k) && k.0 < now && Wake::Task(before.timers()[k])
                    == #[trigger] woken_after[i],
{
    let entries = choose|entries: Seq<TimerEntry>|
        {
            let n = due(entries, now);
            &&& #[trigger] listed_in_full(entries, before.timers())
            &&& n <= entries.len()
            &&& after.settled()
            &&& after.listed() == entries.skip(n as int)
            &&& listed_in_full(after.listed(), after.timers())
            &&& woken_after == woken + wakes_of(entries.take(n as int))
            &&& next == (if n > 0 {
                Some(0u128)
            } else if after.listed().len() > 0 {
                Some((after.listed()[0].when - now) as Nanos)
            } else {
                None
            })
        };
    let n = due(entries, now) as int;
    let rest = entries.skip(n);
    assert forall|i: int| 0 <= i < entries.len() implies before.timers().contains_key(
        (#[trigger] entries[i]).key(),
    ) && before.timers()[entries[i].key()] == entries[i].waker && (i < n <==> entries[i].when
        < now) by {
        lemma_map_at(entries, i);
        law_on_time(entries, now, i);
    }
    assert forall|i: int| 0 <= i < rest.len() implies after.timers().contains_key(
        (#[trigger] rest[i]).key(),
    ) && after.timers()[rest[i].key()] == rest[i].waker by {
        lemma_map_at(rest, i);
    }
    if before.timers().contains_key(key) {
        let i = choose|i: int| 0 <= i < entries.len() && (#[trigger] entries[i]).key() == key;
        assert(entries[i].key() == key);
        if key.0 < now {
            assert(i < n);
            assert(wakes_of(entries.take(n))[i] == Wake::Task(entries[i].waker));
            assert(woken_after[woken.len() + i] == Wake::Task(entries[i].waker));
        } else {
            assert(i >= n);
            assert(rest[i - n] == entries[i]);
            if i > n {
                assert(sooner(entries[n].key(), entries[i].key()));
            }
            assert(rest[0] == entries[n]);
            if n > 0 {
                assert(next == Some(0u128));
            }
        }
    }
    if after.timers().contains_key(key) {
        let j = choose|j: int| 0 <= j < rest.len() && (#[trigger] rest[j]).key() == key;
        assert(rest[j].key() == key);
        assert(rest[j] == entries[n + j]);
    }
    assert forall|i: int| woken.len() <= i < woken_after.len() implies exists|k: (Nanos, usize)|
        #[trigger] before.timers().contains_key(k) && k.0 < now && Wake::Task(before.timers()[k])
            == #[trigger] woken_after[i] by {
        let j = i - woken.len();
        assert(entries.take(n)[j] == entries[j]);
        assert(before.timers().contains_key(entries[j].key()));
        assert(woken_after[i] == Wake::Task(entries[j].waker));
    }
    assert(woken_after.take(woken.len() as int) =~= woken);
}

/// The shorter of two spans is one of them and no longer than either; a span without end is the
/// longest.
pub proof fn law_shorter(a: Option<Nanos>, b: Option<Nanos>)
    ensures
        shorter(a, b) == a || shorter(a, b) == b,
        a matches Some(t) ==> (shorter(a, b) matches Some(s) && s <= t),
        b matches Some(t) ==> (shorter(a, b) matches Some(s) && s <= t),
        shorter(a, b) == shorter(b, a),
{
}

/// What happens to a socket wakes up everybody who waited for it, and nobody who waits for something
/// else is disturbed. The poller is told exactly if somebody waits still, and of all that they wait
/// for. What happens to a socket that is not known changes nothing.
pub proof fn law_dispatched(
    before: &Reactor,
    ev: Event,
    woken: Seq<Wake>,
    r: Option<(i32, Event)>,
    after: &Reactor,
    woken_after: Seq<Wake>,
    key: usize,
    waker: Waker,
)
    requires
        dispatches(before, ev, woken, r, after, woken_after),
    ensures
        key != ev.key && key < before.sources().len() ==> after.sources()[key as int]
            == before.sources()[key as int],
        !before.has_source(ev.key) ==> after.sources() == before.sources() && woken_after == woken
            && r is None,
        before.has_source(ev.key) ==> {
            let source = before.source(ev.key);
            let source_after = after.source(ev.key);
            &&& after.has_source(ev.key)
            &&& ev.readable ==> source_after.read.idle() && source_after.read.tick()
                == before.round()
            &&& ev.writable ==> source_after.write.idle() && source_after.write.tick()
                == before.round()
            &&& !ev.readable ==> source_after.read == source.read
            &&& !ev.writable ==> source_after.write == source.write
            &&& r is Some <==> !source_after.read.idle() || !source_after.write.idle()
            &&& r matches Some((raw, interest)) ==> raw == source.raw && interest.key == source.key
                && interest.readable == !source_after.read.idle() && interest.writable
                == !source_after.write.idle()
            &&& ev.readable && (source.read.waker() == Some(waker)
                || source.read.slots().contains(Some(Some(waker)))) ==> woken_after.contains(
                Wake::Task(waker),
            )
            &&& ev.writable && (source.write.waker() == Some(waker)
                || source.write.slots().contains(Some(Some(waker)))) ==> woken_after.contains(
                Wake::Task(waker),
            )
        },
        woken.is_prefix_of(woken_after),
{
    assert(woken_after.take(woken.len() as int) =~= woken);
    if before.has_source(ev.key) {
        let source = before.source(ev.key);
        let wake = Wake::Task(waker);
        let first = if ev.writable {
            to_wake(source.write.waker(), source.write.slots())
        } else {
            Seq::empty()
        };
        let second = if ev.readable {
            to_wake(source.read.waker(), source.read.slots())
        } else {
            Seq::empty()
        };
        assert(dispatched(&source, &ev) =~= first + second);
        lemma_to_wake(source.write.waker(), source.write.slots());
        lemma_to_wake(source.read.waker(), source.read.slots());
        if first.contains(wake) {
            let k = choose|k: int| 0 <= k < first.len() && first[k] == wake;
            assert(woken_after[woken.len() + k] == wake);
        }
        if second.contains(wake) {
            let k = choose|k: int| 0 <= k < second.len() && second[k] == wake;
            assert(woken_after[woken.len() + first.len() + k] == wake);
        }
        if source.write.slots().contains(Some(Some(waker))) {
            let i = choose|i: int|
                0 <= i < source.write.slots().len() && source.write.slots()[i] == Some(
                    Some(waker),
                );
            assert(source.write.slots()[i] matches Some(Some(_)));
        }
        if source.read.slots().contains(Some(Some(waker))) {
            let i = choose|i: int|
                0 <= i < source.read.slots().len() && source.read.slots()[i] == Some(Some(waker));
            assert(source.read.slots()[i] matches Some(Some(_)));
        }
    }
}

/// No event of a round is passed over: when the round goes on from one of them, that one is dealt
/// with first, and the round is over only after the last.
pub proof fn law_every_event(
    before: &Reactor,
    events: Seq<Event>,
    i: int,
    woken: Seq<Wake>,
    r: ReactStep,
    next: usize,
    after: &Reactor,
    woken_after: Seq<Wake>,
)
    requires
        0 <= i < events.len(),
        advances(before, events, i, woken, r, next, after, woken_after),
    ensures
        exists|mid: Reactor, mid_woken: Seq<Wake>, told: Option<(i32, Event)>| #[trigger]
            dispatches(before, events[i], woken, told, &mid, mid_woken) && (told matches Some((
                raw,
                interest,
            )) ==> r == ReactStep::Modify(raw, interest) && next == i + 1),
        r is Done ==> next == events.len(),
        r is Modify || r is Done,
        i < next <= events.len(),
{
    match r {
        ReactStep::Modify(raw, interest) => {
            let (mid, mid_woken) = choose|mid: Reactor, mid_woken: Seq<Wake>| #[trigger]
                stops_at(
                    before,
                    events,
                    i,
                    woken,
                    mid,
                    mid_woken,
                    r,
                    next,
                    after,
                    woken_after,
                );
            if next == i + 1 {
                assert(dispatches(
                    before,
                    events[i],
                    woken,
                    Some((raw, interest)),
                    after,
                    woken_after,
                ));
            } else {
                let first = lemma_first_passed(
                    before,
                    events,
                    i,
                    next - 1,
                    woken,
                    &mid,
                    mid_woken,
                );
                assert(dispatches(before, events[i], woken, None, &first.0, first.1));
            }
        },
        _ => {
            let first = lemma_first_passed(
                before,
                events,
                i,
                events.len() as int,
                woken,
                after,
                woken_after,
            );
            assert(dispatches(before, events[i], woken, None, &first.0, first.1));
        },
    }
}

proof fn lemma_first_passed(
    before: &Reactor,
    events: Seq<Event>,
    i: int,
    j: int,
    woken: Seq<Wake>,
    after: &Reactor,
    woken_after: Seq<Wake>,
) -> (first: (Reactor, Seq<Wake>))
    requires
        i < j,
        passes(before, events, i, j, woken, after, woken_after),
    ensures
        dispatches(before, events[i], woken, None, &first.0, first.1),
    decreases j - i,
{
    let (mid, mid_woken) = choose|mid: Reactor, mid_woken: Seq<Wake>|
        {
            &&& passes(before, events, i, j - 1, woken, &mid, mid_woken)
            &&& #[trigger] dispatches(&mid, events[j - 1], mid_woken, None, after, woken_after)
        };
    if j == i + 1 {
        (*after, woken_after)
    } else {
        lemma_first_passed(before, events, i, j - 1, woken, &mid, mid_woken)
    }
}

/// Whoever is told to wait for a socket is the one who is woken up, and the poller is told of it
/// unless somebody waited already; another one who polled before is woken up. The socket is ready
/// only if it was so in a round that had not begun when it was asked for.
pub proof fn law_polled(
    before: Source,
    after: Source,
    dir: Direction,
    round: usize,
    cx: &Context,
    cx_after: &Context,
    r: Readiness,
)
    requires
        polled(before, after, dir, round, cx, cx_after, r),
    ensures
        r is Pending ==> after.interest(dir).waker() == Some(cx.waker),
        r is Pending && before.interest(dir).idle() ==> (r matches Readiness::Pending(Some(ev))
            && ev.key == before.key && (match dir {
            Direction::Read => ev.readable == !after.read.idle() && ev.writable
                == !before.write.idle(),
            Direction::Write => ev.writable == !after.write.idle() && ev.readable
                == !before.read.idle(),
        })),
        r is Pending ==> (before.interest(dir).waker() matches Some(waker) ==> waker == cx.waker
            || cx_after.woken@ == cx.woken@.push(Wake::Task(waker))),
        r is Ready <==> (before.interest(dir).ticks() matches Some((asked, last))
            && before.interest(dir).tick() != asked && before.interest(dir).tick() != last),
        r is Ready ==> after.interest(dir).ticks() is None,
        r is Pending && before.interest(dir).waker() != Some(cx.waker) ==> after.interest(
            dir,
        ).ticks() == Some((round, before.interest(dir).tick())),
        after.interest(dir).slots() == before.interest(dir).slots(),
{
}

/// A wait that was interrupted is none, one that failed says so, and neither changes anything. After one
/// in which nothing happened the timers that are due have gone off, unless there was no wait at all; and
/// of what happened, the first is dealt with at once and all of it in its order.
pub proof fn law_waited(
    before: &Reactor,
    res: Result<Vec<Event>, Error>,
    timeout: Option<Nanos>,
    now: Nanos,
    woken: Seq<Wake>,
    round: Round,
    r: ReactStep,
    after: &Reactor,
    woken_after: Seq<Wake>,
    key: (Nanos, usize),
)
    requires
        takes_note(before, res, timeout, now, woken, round, r, after, woken_after),
    ensures
        res matches Err(error) ==> r is Done && *after == *before && woken_after == woken,
        res matches Err(error) ==> (r == ReactStep::Done(Err::<(), Error>(error)) <==> !(error.kind
            is Interrupted)),
        res matches Ok(events) ==> (events@.len() == 0 ==> r == ReactStep::Done(
            Ok::<(), Error>(()),
        )),
        res matches Ok(events) ==> (events@.len() == 0 && timeout != Some(0u128) ==> {
            &&& after.timers().contains_key(key) <==> before.timers().contains_key(key) && key.0 >= now
            &&& before.timers().contains_key(key) && key.0 < now ==> woken_after.contains(
                Wake::Task(before.timers()[key]),
            )
        }),
        res matches Ok(events) ==> (events@.len() == 0 && timeout == Some(0u128) ==> *after == *before
            && woken_after == woken),
        res matches Ok(events) ==> (events@.len() > 0 ==> {
            &&& round.events@ == events@
            &&& 0 < round.next <= events@.len()
            &&& r is Done ==> round.next == events@.len()
            &&& exists|mid: Reactor, mid_woken: Seq<Wake>, told: Option<(i32, Event)>| #[trigger]
                dispatches(before, events@[0], woken, told, &mid, mid_woken)
        }),
{
    if let Ok(events) = res {
        if events@.len() > 0 {
            law_every_event(before, events@, 0, woken, r, round.next, after, woken_after);
        } else if timeout != Some(0u128) {
            let next = choose|next: Option<Nanos>| #[trigger]
                timers_processed(before, after, now, woken, woken_after, next);
            law_round(before, after, now, woken, woken_after, next, key);
        }
    }
}

} // verus!
