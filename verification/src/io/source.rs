//! A socket, and those who wait for it.

use vstd::prelude::*;
use crate::net::polling::Event;
use crate::task::{Context, Wake, Waker};
use crate::utils::colo::Colo;

verus! {

/// What somebody waits for.
#[derive(Clone, Copy, Debug, PartialEq, Eq, Structural)]
pub enum Direction {
    Read,
    Write,
}

/// Those who wait for one direction of a socket.
pub struct Interest {
    /// The last round of the reactor in which the socket was ready.
    tick: usize,
    /// For whoever polls the socket: the round of the reactor and `tick`, both from when they began
    /// to wait.
    ticks: Option<(usize, usize)>,
    /// Whoever polls the socket.
    waker: Option<Waker>,
    /// The others, each in a slot.
    wakers: Colo<Option<Waker>>,
}

/// Whether nobody in `slots` waits.
pub open spec fn none_waits(slots: Seq<Option<Option<Waker>>>) -> bool {
    forall|i: int| 0 <= i < slots.len() ==> !(#[trigger] slots[i] matches Some(Some(_)))
}

/// Those in `slots` who wait, in the order of the slots.
pub open spec fn waiting(slots: Seq<Option<Option<Waker>>>) -> Seq<Wake>
    decreases slots.len(),
{
    if slots.len() == 0 {
        Seq::empty()
    } else {
        match slots.last() {
            Some(Some(waker)) => waiting(slots.drop_last()).push(Wake::Task(waker)),
            _ => waiting(slots.drop_last()),
        }
    }
}

/// `slots` once nobody in them waits.
pub open spec fn drained(slots: Seq<Option<Option<Waker>>>) -> Seq<Option<Option<Waker>>> {
    Seq::new(
        slots.len(),
        |i: int|
            match slots[i] {
                Some(_) => Some(None),
                None => None,
            },
    )
}

/// Those whom to wake up: whoever polls, and then the others.
pub open spec fn to_wake(
    waker: Option<Waker>,
    slots: Seq<Option<Option<Waker>>>,
) -> Seq<Wake> {
    (match waker {
        Some(waker) => seq![Wake::Task(waker)],
        None => Seq::empty(),
    }) + waiting(slots)
}

impl Interest {
    pub closed spec fn wf(&self) -> bool {
        self.wakers.wf() && self.wakers.limit() == 0
    }

    /// The last round of the reactor in which the socket was ready.
    pub closed spec fn tick(&self) -> usize {
        self.tick
    }

    pub closed spec fn ticks(&self) -> Option<(usize, usize)> {
        self.ticks
    }

    /// Whoever polls the socket.
    pub closed spec fn waker(&self) -> Option<Waker> {
        self.waker
    }

    /// The others who wait.
    pub closed spec fn slots(&self) -> Seq<Option<Option<Waker>>> {
        self.wakers@
    }

    /// The slots that are free, in the order in which they will be used.
    pub closed spec fn free(&self) -> Seq<usize> {
        self.wakers.vacancies()
    }

    /// The slot that the next one gets.
    pub open spec fn next_slot(&self) -> usize {
        if self.free().len() == 0 {
            self.slots().len() as usize
        } else {
            self.free()[0]
        }
    }

    /// Nobody has waited yet, and the socket has not been ready yet.
    pub open spec fn fresh(&self) -> bool {
        &&& self.tick() == 0
        &&& self.ticks() is None
        &&& self.waker() is None
        &&& self.slots() == Seq::<Option<Option<Waker>>>::empty()
        &&& self.free() == Seq::<usize>::empty()
    }

    /// The socket was ready in the round `tick`, and nobody waits any more.
    pub open spec fn released(&self, tick: usize, after: &Self) -> bool {
        &&& after.idle()
        &&& after.tick() == tick
        &&& after.ticks() == self.ticks()
        &&& after.slots() == drained(self.slots())
        &&& after.free() == self.free()
    }

    /// Nobody waits.
    pub open spec fn idle(&self) -> bool {
        self.waker() is None && none_waits(self.slots())
    }

    pub fn new() -> (r: Self)
        ensures
            r.wf(),
            r.fresh(),
    {
        Interest { tick: 0, ticks: None, waker: None, wakers: Colo::new() }
    }

    pub fn is_empty(&self) -> (r: bool)
        requires
            self.wf(),
        ensures
            r == self.idle(),
    {
        if self.waker.is_some() {
            return false;
        }
        let n: usize = self.wakers.slot_count();
        let mut i: usize = 0;
        while i < n
            invariant
                self.wf(),
                n == self.wakers@.len(),
                i <= n,
                forall|j: int|
                    0 <= j < i ==> !(#[trigger] self.wakers@[j] matches Some(Some(_))),
            decreases n - i,
        {
            match self.wakers.get(i) {
                Some(opt) => if opt.is_some() {
                    assert(self.slots()[i as int] matches Some(Some(_)));
                    return false;
                },
                None => {},
            }
            i = i + 1;
        }
        true
    }

    /// Takes all wakers out and adds them to `dst`.
    pub fn drain_into(&mut self, dst: &mut Vec<Wake>)
        requires
            old(self).wf(),
        ensures
            final(self).wf(),
            final(self).tick() == old(self).tick(),
            final(self).ticks() == old(self).ticks(),
            final(self).waker() is None,
            final(self).slots() == drained(old(self).slots()),
            final(self).idle(),
            final(self).free() == old(self).free(),
            final(dst)@ == old(dst)@ + to_wake(old(self).waker(), old(self).slots()),
    {
        let ghost slots = self.wakers@;
        let ghost first: Seq<Wake> = match self.waker {
            Some(waker) => seq![Wake::Task(waker)],
            None => Seq::empty(),
        };
        match self.waker.take() {
            Some(waker) => dst.push(Wake::Task(waker)),
            None => {},
        }
        proof {
            assert(slots.take(0) =~= Seq::<Option<Option<Waker>>>::empty());
            assert(dst@ =~= old(dst)@ + first + waiting(slots.take(0)));
        }
        let n: usize = self.wakers.slot_count();
        let mut i: usize = 0;
        while i < n
            invariant
                self.wf(),
                slots == old(self).slots(),
                n == slots.len(),
                n == self.wakers@.len(),
                i <= n,
                self.tick == old(self).tick,
                self.ticks == old(self).ticks,
                self.waker is None,
                self.wakers.vacancies() == old(self).wakers.vacancies(),
                forall|j: int| i <= j < n ==> self.wakers@[j] == slots[j],
                forall|j: int|
                    0 <= j < i ==> #[trigger] self.wakers@[j] == (match slots[j] {
                        Some(_) => Some(None::<Waker>),
                        None => None,
                    }),
                dst@ == old(dst)@ + first + waiting(slots.take(i as int)),
            decreases n - i,
        {
            let ghost before = self.wakers@;
            let taken = match self.wakers.get_mut(i) {
                Some(opt) => opt.take(),
                None => None,
            };
            proof {
                assert(slots.take(i + 1).drop_last() =~= slots.take(i as int));
                assert(slots.take(i + 1).last() == slots[i as int]);
            }
            match taken {
                Some(waker) => {
                    dst.push(Wake::Task(waker));
                    assert(dst@ =~= old(dst)@ + first + waiting(slots.take(i + 1)));
                },
                None => {},
            }
            i = i + 1;
        }
        proof {
            assert(slots.take(n as int) =~= slots);
            assert(self.wakers@ =~= drained(slots));
            assert(old(dst)@ + first + waiting(slots) =~= old(dst)@ + (first + waiting(slots)));
        }
    }
}

/// A socket that the reactor knows.
pub struct Source {
    /// The socket.
    pub raw: i32,
    /// Its key in the reactor.
    pub key: usize,
    /// Those who wait to read.
    pub read: Interest,
    /// Those who wait to write.
    pub write: Interest,
}

/// What came of asking whether a socket is ready.
#[derive(Clone, Copy, Debug, PartialEq, Eq, Structural)]
pub enum Readiness {
    Ready,
    /// It is not; if there is an event, the poller is to be told of this interest.
    Pending(Option<Event>),
}

/// Whether a socket has been ready since somebody began to wait: in a round of the reactor that had
/// not begun by then.
pub open spec fn ready_since(tick: usize, ticks: Option<(usize, usize)>) -> bool {
    ticks matches Some((round, before)) && tick != round && tick != before
}

impl Source {
    pub open spec fn wf(&self) -> bool {
        self.read.wf() && self.write.wf()
    }

    pub open spec fn interest(&self, dir: Direction) -> Interest {
        match dir {
            Direction::Read => self.read,
            Direction::Write => self.write,
        }
    }

    /// What those who wait are interested in.
    pub open spec fn event(&self) -> Event {
        Event { key: self.key, readable: !self.read.idle(), writable: !self.write.idle() }
    }

    /// Only one direction may have changed.
    pub open spec fn same_but(&self, other: &Self, dir: Direction) -> bool {
        &&& self.raw == other.raw
        &&& self.key == other.key
        &&& match dir {
            Direction::Read => self.write == other.write,
            Direction::Write => self.read == other.read,
        }
    }

    pub fn new(raw: i32, key: usize) -> (r: Self)
        ensures
            r.wf(),
            r.raw == raw,
            r.key == key,
            r.read.fresh(),
            r.write.fresh(),
    {
        Source { raw, key, read: Interest::new(), write: Interest::new() }
    }

    /// What those who wait are interested in.
    pub fn current(&self) -> (r: Event)
        requires
            self.wf(),
        ensures
            r == self.event(),
    {
        Event {
            key: self.key,
            readable: !self.read.is_empty(),
            writable: !self.write.is_empty(),
        }
    }

    fn side(&mut self, dir: Direction) -> (r: &mut Interest)
        ensures
            *r == old(self).interest(dir),
            final(self).interest(dir) == *final(r),
            final(self).same_but(old(self), dir),
    {
        match dir {
            Direction::Read => &mut self.read,
            Direction::Write => &mut self.write,
        }
    }

    /// Asks for whoever polls the socket whether it is ready, in the round `ticker` of the reactor.
    /// Only one task polls: another one that did before is woken up.
    pub fn poll_ready(&mut self, dir: Direction, cx: &mut Context, ticker: usize) -> (r: Readiness)
        requires
            old(self).wf(),
        ensures
            final(self).wf(),
            final(self).same_but(old(self), dir),
            final(cx).waker == old(cx).waker,
            final(self).interest(dir).tick() == old(self).interest(dir).tick(),
            final(self).interest(dir).slots() == old(self).interest(dir).slots(),
            final(self).interest(dir).free() == old(self).interest(dir).free(),
            ({
                let before = old(self).interest(dir);
                let after = final(self).interest(dir);
                if ready_since(before.tick(), before.ticks()) {
                    &&& r is Ready
                    &&& after.ticks() is None
                    &&& after.waker() == before.waker()
                    &&& final(cx).woken@ == old(cx).woken@
                } else if before.waker() == Some(old(cx).waker) {
                    &&& r == Readiness::Pending(None)
                    &&& after.ticks() == before.ticks()
                    &&& after.waker() == before.waker()
                    &&& final(cx).woken@ == old(cx).woken@
                } else {
                    &&& r == Readiness::Pending(
                        if before.idle() {
                            Some(final(self).event())
                        } else {
                            None
                        },
                    )
                    &&& after.ticks() == Some((ticker, before.tick()))
                    &&& after.waker() == Some(old(cx).waker)
                    &&& final(cx).woken@ == (match before.waker() {
                        Some(waker) => old(cx).woken@.push(Wake::Task(waker)),
                        None => old(cx).woken@,
                    })
                }
            }),
            // Whoever is told to wait is the one who is woken up, and the poller knows of it: it is
            // told now, or was told before of somebody who waits still.
            r is Pending ==> final(self).interest(dir).waker() == Some(old(cx).waker),
            r matches Readiness::Pending(Some(ev)) ==> ev.key == old(self).key && (match dir {
                Direction::Read => ev.readable && ev.writable == !old(self).write.idle(),
                Direction::Write => ev.writable && ev.readable == !old(self).read.idle(),
            }),
            r is Pending ==> ((r matches Readiness::Pending(Some(_))) <==> old(self).interest(
                dir,
            ).idle()),
            // It is ready only if it was so in a round that is neither the one in which it was asked
            // nor the one in which it had been ready before that.
            r is Ready ==> (old(self).interest(dir).ticks() matches Some((round, before))
                && old(self).interest(dir).tick() != round && old(self).interest(dir).tick()
                != before),
            r is Ready ==> final(self).interest(dir).ticks() is None,
    {
        let waker = cx.waker;
        let side = self.side(dir);
        match side.ticks {
            Some((a, b)) => if side.tick != a && side.tick != b {
                side.ticks = None;
                return Readiness::Ready;
            },
            None => {},
        }
        let was_empty = side.is_empty();
        match side.waker {
            Some(w) => {
                if w.will_wake(&waker) {
                    return Readiness::Pending(None);
                }
                cx.woken.push(Wake::Task(w));
            },
            None => {},
        }
        side.waker = Some(waker);
        side.ticks = Some((ticker, side.tick));
        if was_empty {
            Readiness::Pending(Some(self.current()))
        } else {
            Readiness::Pending(None)
        }
    }

    /// The socket was ready in the round `tick` of the reactor: adds those who waited for it to
    /// `woken`, and says what the others are interested in, if there are any.
    pub fn dispatch(&mut self, ev: &Event, tick: usize, woken: &mut Vec<Wake>) -> (r: Option<Event>)
        requires
            old(self).wf(),
        ensures
            final(self).wf(),
            final(self).raw == old(self).raw,
            final(self).key == old(self).key,
            ev.readable ==> old(self).read.released(tick, &final(self).read),
            !ev.readable ==> final(self).read == old(self).read,
            ev.writable ==> old(self).write.released(tick, &final(self).write),
            !ev.writable ==> final(self).write == old(self).write,
            final(woken)@ == old(woken)@ + dispatched(old(self), ev),
            r == (if final(self).read.idle() && final(self).write.idle() {
                None
            } else {
                Some(final(self).event())
            }),
            // Everybody who waited for what happened is woken up.
            forall|i: int|
                #![trigger old(self).read.slots()[i]]
                ev.readable && 0 <= i < old(self).read.slots().len() && (old(self).read.slots()[i] matches Some(Some(_))) ==> final(woken)@.contains(
                    Wake::Task(old(self).read.slots()[i]->0->0),
                ),
            forall|i: int|
                #![trigger old(self).write.slots()[i]]
                ev.writable && 0 <= i < old(self).write.slots().len() && (old(self).write.slots()[i] matches Some(Some(_))) ==> final(woken)@.contains(
                    Wake::Task(old(self).write.slots()[i]->0->0),
                ),
            ev.readable ==> (old(self).read.waker() matches Some(waker) ==> final(woken)@.contains(
                Wake::Task(waker),
            )),
            ev.writable ==> (old(self).write.waker() matches Some(waker)
                ==> final(woken)@.contains(Wake::Task(waker))),
            // The poller is to be told of those who wait still.
            (r is Some) == (!final(self).read.idle() || !final(self).write.idle()),
            r matches Some(next) ==> next.key == old(self).key && next.readable
                == !final(self).read.idle() && next.writable == !final(self).write.idle(),
    {
        proof {
            if ev.readable {
                lemma_to_wake(self.read.waker(), self.read.slots());
            }
            if ev.writable {
                lemma_to_wake(self.write.waker(), self.write.slots());
            }
        }
        let ghost mut first: Seq<Wake> = Seq::empty();
        if ev.writable {
            self.write.tick = tick;
            self.write.drain_into(woken);
            proof {
                first = to_wake(old(self).write.waker(), old(self).write.slots());
            }
        }
        assert(woken@ =~= old(woken)@ + first);
        let ghost mut second: Seq<Wake> = Seq::empty();
        if ev.readable {
            self.read.tick = tick;
            self.read.drain_into(woken);
            proof {
                second = to_wake(old(self).read.waker(), old(self).read.slots());
            }
        }
        assert(woken@ =~= old(woken)@ + (first + second));
        proof {
            assert forall|wake: Wake| #[trigger] first.contains(wake) implies woken@.contains(
                wake,
            ) by {
                let k = choose|k: int| 0 <= k < first.len() && first[k] == wake;
                assert(woken@[old(woken)@.len() + k] == wake);
            }
            assert forall|wake: Wake| #[trigger] second.contains(wake) implies woken@.contains(
                wake,
            ) by {
                let k = choose|k: int| 0 <= k < second.len() && second[k] == wake;
                assert(woken@[old(woken)@.len() + first.len() + k] == wake);
            }
        }
        let ev = self.current();
        if ev.readable || ev.writable {
            Some(ev)
        } else {
            None
        }
    }
}

/// Those whom an event wakes up: first those who wait to write, then those who wait to read.
pub open spec fn dispatched(source: &Source, ev: &Event) -> Seq<Wake> {
    (if ev.writable {
        to_wake(source.write.waker(), source.write.slots())
    } else {
        Seq::empty()
    }) + (if ev.readable {
        to_wake(source.read.waker(), source.read.slots())
    } else {
        Seq::empty()
    })
}

/// Somebody who waits for a socket besides whoever polls it.
pub struct Waiting {
    dir: Direction,
    ticks: Option<(usize, usize)>,
    index: Option<usize>,
}

impl Waiting {
    pub closed spec fn dir(&self) -> Direction {
        self.dir
    }

    pub closed spec fn ticks(&self) -> Option<(usize, usize)> {
        self.ticks
    }

    /// The slot.
    pub closed spec fn index(&self) -> Option<usize> {
        self.index
    }

    /// The slot is taken.
    pub open spec fn wf(&self, source: &Source) -> bool {
        let slots = source.interest(self.dir()).slots();
        &&& self.index() matches Some(i) ==> i < slots.len() && slots[i as int] is Some
        &&& (self.index() is Some) == (self.ticks() is Some)
    }

    /// What comes of asking whether the socket is ready, in the round `ticker` of the reactor.
    pub open spec fn asks(
        &self,
        source: &Source,
        ticker: usize,
        cx: &Context,
        r: Readiness,
        after: &Self,
        source_after: &Source,
    ) -> bool {
        let side = source.interest(self.dir());
        let side_after = source_after.interest(self.dir());
        &&& source_after.same_but(source, self.dir())
        &&& side_after.tick() == side.tick()
        &&& side_after.ticks() == side.ticks()
        &&& side_after.waker() == side.waker()
        &&& if ready_since(side.tick(), self.ticks()) {
            &&& r is Ready
            &&& *after == *self
            &&& side_after == side
        } else {
            let i = match self.index() {
                Some(i) => i,
                None => side.next_slot(),
            };
            &&& after.dir() == self.dir()
            &&& after.index() == Some(i)
            &&& after.ticks() == (match self.index() {
                Some(_) => self.ticks(),
                None => Some((ticker, side.tick())),
            })
            &&& side_after.slots() == (if i < side.slots().len() {
                side.slots().update(i as int, Some(Some(cx.waker)))
            } else {
                side.slots().push(Some(Some(cx.waker)))
            })
            &&& side_after.free() == (if self.index() is None && side.free().len() > 0 {
                side.free().drop_first()
            } else {
                side.free()
            })
            &&& r == Readiness::Pending(
                if side.idle() {
                    Some(source_after.event())
                } else {
                    None
                },
            )
        }
    }

    /// What comes of no longer waiting: the slot is free.
    pub open spec fn stops(&self, source: &Source, source_after: &Source) -> bool {
        let side = source.interest(self.dir());
        let side_after = source_after.interest(self.dir());
        &&& source_after.same_but(source, self.dir())
        &&& side_after.tick() == side.tick()
        &&& side_after.ticks() == side.ticks()
        &&& side_after.waker() == side.waker()
        &&& match self.index() {
            Some(i) => {
                &&& side_after.slots() == side.slots().update(i as int, None)
                &&& side_after.free() == seq![i] + side.free()
            },
            None => {
                &&& side_after.slots() == side.slots()
                &&& side_after.free() == side.free()
            },
        }
    }

    pub fn new(dir: Direction) -> (r: Self)
        ensures
            r.dir() == dir,
            r.ticks() is None,
            r.index() is None,
    {
        Waiting { dir, ticks: None, index: None }
    }

    /// Asks whether the socket is ready, in the round `ticker` of the reactor.
    pub fn poll(&mut self, source: &mut Source, cx: &Context, ticker: usize) -> (r: Readiness)
        requires
            old(source).wf(),
            old(self).wf(old(source)),
        ensures
            final(source).wf(),
            final(self).wf(final(source)),
            old(self).asks(old(source), ticker, cx, r, final(self), final(source)),
            // Whoever is told to wait stands in a slot of their own, and the poller knows of it.
            r is Pending ==> {
                &&& final(self).index() matches Some(i) && i < final(source).interest(
                    old(self).dir(),
                ).slots().len() && final(source).interest(old(self).dir()).slots()[i as int]
                    == Some(Some(cx.waker))
                &&& final(self).ticks() is Some
            },
            r matches Readiness::Pending(Some(ev)) ==> ev.key == old(source).key && (
            match old(self).dir() {
                Direction::Read => ev.readable && ev.writable == !old(source).write.idle(),
                Direction::Write => ev.writable && ev.readable == !old(source).read.idle(),
            }),
            r is Pending ==> ((r matches Readiness::Pending(Some(_))) <==> old(source).interest(
                old(self).dir(),
            ).idle()),
            // The others stand where they stood.
            forall|j: int|
                #![trigger old(source).interest(old(self).dir()).slots()[j]]
                0 <= j < old(source).interest(old(self).dir()).slots().len() && !(final(self).index() matches Some(i) && i == j) ==> final(source).interest(old(self).dir()).slots()[j]
                    == old(source).interest(old(self).dir()).slots()[j],
            r is Ready ==> (old(self).ticks() matches Some((round, before)) && old(source).interest(old(self).dir()).tick() != round && old(source).interest(
                old(self).dir(),
            ).tick() != before),
    {
        let side = source.side(self.dir);
        let ghost before = *side;
        match self.ticks {
            Some((a, b)) => if side.tick != a && side.tick != b {
                return Readiness::Ready;
            },
            None => {},
        }
        let was_empty = side.is_empty();
        let i: usize = match self.index {
            Some(i) => i,
            None => {
                proof {
                    side.wakers.lemma_vacancies();
                }
                let i = side.wakers.insert(None);
                self.index = Some(i);
                self.ticks = Some((ticker, side.tick));
                i
            },
        };
        match side.wakers.get_mut(i) {
            Some(opt) => {
                *opt = Some(cx.waker);
            },
            None => {},
        }
        proof {
            assert(side.free() =~= (if old(self).index is None && before.free().len() > 0 {
                before.free().drop_first()
            } else {
                before.free()
            }));
            assert(side.wakers@ =~= (if i < before.slots().len() {
                before.slots().update(i as int, Some(Some(cx.waker)))
            } else {
                before.slots().push(Some(Some(cx.waker)))
            }));
        }
        if was_empty {
            Readiness::Pending(Some(source.current()))
        } else {
            Readiness::Pending(None)
        }
    }

    /// Stops waiting.
    pub fn drop(self, source: &mut Source)
        requires
            old(source).wf(),
            self.wf(old(source)),
        ensures
            final(source).wf(),
            self.stops(old(source), final(source)),
            // The others go on waiting.
            forall|j: int|
                #![trigger old(source).interest(self.dir()).slots()[j]]
                0 <= j < old(source).interest(self.dir()).slots().len() ==> final(source).interest(
                    self.dir(),
                ).slots()[j] == (if (self.index() matches Some(i) && i == j) {
                    None
                } else {
                    old(source).interest(self.dir()).slots()[j]
                }),
    {
        match self.index {
            Some(i) => {
                let side = source.side(self.dir);
                side.wakers.remove(i);
            },
            None => {},
        }
    }
}

/// Nobody waits any longer once the socket was ready, and everybody who waited was woken up: a
/// waker that was in a slot is among those woken up.
pub proof fn law_all_woken(slots: Seq<Option<Option<Waker>>>, i: int)
    requires
        0 <= i < slots.len(),
        slots[i] matches Some(Some(_)),
    ensures
        waiting(slots).contains(Wake::Task(slots[i]->0->0)),
        none_waits(drained(slots)),
    decreases slots.len(),
{
    let wake = Wake::Task(slots[i]->0->0);
    if i == slots.len() - 1 {
        assert(waiting(slots).last() == wake);
    } else {
        law_all_woken(slots.drop_last(), i);
        let rest = waiting(slots.drop_last());
        let j = choose|j: int| 0 <= j < rest.len() && rest[j] == wake;
        assert(waiting(slots)[j] == wake);
    }
}

/// Everybody who waits is among those to be woken up.
pub proof fn lemma_to_wake(waker: Option<Waker>, slots: Seq<Option<Option<Waker>>>)
    ensures
        waker matches Some(w) ==> to_wake(waker, slots).contains(Wake::Task(w)),
        forall|i: int|
            #![trigger slots[i]]
            0 <= i < slots.len() && (slots[i] matches Some(Some(_))) ==> to_wake(
                waker,
                slots,
            ).contains(Wake::Task(slots[i]->0->0)),
{
    if waker is Some {
        assert(to_wake(waker, slots)[0] == Wake::Task(waker->0));
    }
    assert forall|i: int|
        #![trigger slots[i]]
        0 <= i < slots.len() && (slots[i] matches Some(Some(_))) implies to_wake(
        waker,
        slots,
    ).contains(Wake::Task(slots[i]->0->0)) by {
        law_all_woken(slots, i);
        let wake = Wake::Task(slots[i]->0->0);
        let rest = waiting(slots);
        let j = choose|j: int| 0 <= j < rest.len() && rest[j] == wake;
        let first: int = if waker is Some {
            1
        } else {
            0
        };
        assert(to_wake(waker, slots)[first + j] == wake);
    }
}

/// Nobody is woken up who did not wait.
pub proof fn law_none_but_those_who_wait(slots: Seq<Option<Option<Waker>>>, wake: Wake)
    requires
        waiting(slots).contains(wake),
    ensures
        exists|i: int|
            0 <= i < slots.len() && (#[trigger] slots[i] matches Some(Some(w)) && wake
                == Wake::Task(w)),
    decreases slots.len(),
{
    let j = choose|j: int| 0 <= j < waiting(slots).len() && waiting(slots)[j] == wake;
    if slots.len() > 0 {
        let rest = slots.drop_last();
        if slots.last() matches Some(Some(w)) && j == waiting(slots).len() - 1 {
            assert(slots[slots.len() - 1] matches Some(Some(w)) && wake == Wake::Task(w));
        } else {
            assert(waiting(rest)[j] == wake);
            law_none_but_those_who_wait(rest, wake);
            let i = choose|i: int|
                0 <= i < rest.len() && (#[trigger] rest[i] matches Some(Some(w)) && wake
                    == Wake::Task(w));
            assert(slots[i] == rest[i]);
        }
    }
}

/// Whoever began to wait in one round finds the socket ready if it was so in a later one, and goes on
/// to wait if it was not.
pub proof fn law_ready_later(
    first: &Waiting,
    source: &Source,
    round: usize,
    cx: &Context,
    second: &Waiting,
    between: &Source,
    later: &Source,
    ticker: usize,
    cx_later: &Context,
    r: Readiness,
    third: &Waiting,
    after: &Source,
    told: Option<Event>,
)
    requires
        first.index() is None,
        first.ticks() is None,
        first.asks(source, round, cx, Readiness::Pending(told), second, between),
        second.asks(later, ticker, cx_later, r, third, after),
    ensures
        later.interest(first.dir()).tick() != round && later.interest(first.dir()).tick()
            != source.interest(first.dir()).tick() ==> r is Ready,
        later.interest(first.dir()).tick() == source.interest(first.dir()).tick() ==> r is Pending,
        later.interest(first.dir()).tick() == round ==> r is Pending,
{
}

} // verus!
