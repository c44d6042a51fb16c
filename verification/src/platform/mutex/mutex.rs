//! A lock that threads wait for.
//!
//! The state of the lock is one number: its lowest bit says that the lock is held, and the rest
//! counts the threads that have waited for too long. A thread that finds the lock held spins for a
//! while, then yields, and then parks until it is notified. Steps of other threads may come between
//! any two of its steps, so each step is one call of [`Locking::step`].

use vstd::prelude::*;
use crate::platform::event::listener::{
    apart, drops, keeps, law_drop_counts, law_notifies, law_others_stay, law_others_stay_drop,
    law_others_stay_listen, law_others_stay_notify, lemma_listens, lemma_restates, listens,
    notifies, removes, restates, stirs, undisturbed, Event, EventListener, State,
};
use crate::platform::lock::mutex::{
    is_late, lemma_tally_marked, lemma_tally_remove, lemma_tally_update, tally, PATIENCE,
};
use crate::task::{Nanos, Wake};

verus! {

/// How often a thread looks at the lock before it listens to it.
pub const TRIES: u32 = 10;

/// A lock.
pub struct Mutex<T> {
    state: usize,
    lock_ops: Event,
    data: T,
}

impl<T> Mutex<T> {
    pub closed spec fn wf(&self) -> bool {
        self.lock_ops.wf()
    }

    /// The state of the lock as one number.
    pub closed spec fn state(&self) -> usize {
        self.state
    }

    pub open spec fn locked(&self) -> bool {
        self.state() % 2 == 1
    }

    /// How many threads have waited for too long.
    pub open spec fn starving(&self) -> nat {
        (self.state() / 2) as nat
    }

    /// What is told to those who wait.
    pub closed spec fn ops(&self) -> Event {
        self.lock_ops
    }

    /// What the lock protects.
    pub closed spec fn data(&self) -> T {
        self.data
    }

    /// A lock that nobody holds.
    pub fn new(data: T) -> (r: Self)
        ensures
            r.wf(),
            r.state() == 0,
            r.ops().entries().len() == 0,
            r.data() == data,
    {
        Mutex { state: 0, lock_ops: Event::new(0), data }
    }

    pub fn into_inner(self) -> (r: T)
        ensures
            r == self.data(),
    {
        self.data
    }

    /// Gives access to the data to the one who has the lock for themselves.
    pub fn get_mut(&mut self) -> (r: &mut T)
        requires
            old(self).wf(),
        ensures
            *r == old(self).data(),
            final(self).wf(),
            final(self).state() == old(self).state(),
            final(self).ops() == old(self).ops(),
            final(self).data() == *final(r),
    {
        &mut self.data
    }

    /// Takes the lock if nobody holds it and nobody starves.
    pub fn try_lock(&mut self) -> (r: bool)
        requires
            old(self).wf(),
        ensures
            final(self).wf(),
            r == (old(self).state() == 0),
            final(self).state() == (if r {
                1
            } else {
                old(self).state()
            }),
            final(self).ops() == old(self).ops(),
            final(self).data() == old(self).data(),
    {
        if self.state == 0 {
            self.state = 1;
            true
        } else {
            false
        }
    }

    /// Gives the lock back and notifies one of those who wait.
    pub fn unlock(&mut self, woken: &mut Vec<Wake>)
        requires
            old(self).wf(),
            old(self).locked(),
        ensures
            final(self).wf(),
            final(self).state() == old(self).state() - 1,
            final(self).data() == old(self).data(),
            notifies(&old(self).ops(), &final(self).ops(), 1, old(woken)@, final(woken)@),
            !final(self).locked(),
            stirs(&final(self).ops()),
    {
        self.state = self.state - 1;
        self.lock_ops.notify_relaxed(1, woken);
        proof {
            law_notifies(&old(self).lock_ops, &self.lock_ops, 1, old(woken)@, woken@);
        }
    }

    /// Begins to take a lock that is held.
    pub fn lock_slow() -> (r: Locking)
        ensures
            r.stage() == LockStage::Spin(0),
            r.listener() is None,
    {
        Locking { start: 0, stage: LockStage::Spin(0), listener: None }
    }
}

/// How far a thread has come.
#[derive(Clone, Copy, Debug, PartialEq, Eq, Structural)]
pub enum LockStage {
    /// It has looked at the lock that often.
    Spin(u32),
    /// It is about to take the time.
    Clock,
    /// It is about to listen to the lock.
    Listen,
    /// It listens, and is about to see whether the lock is free.
    Try,
    /// It is about to park.
    Wait,
    /// It is parked.
    Parked,
    /// It was notified, and is about to see whether the lock is free.
    Retry,
    /// It has waited for too long, and is about to say so.
    Starve,
    /// It starves, and is about to listen to the lock.
    ListenStarving,
    /// It starves and listens, and is about to see whether the lock is free.
    TryStarving,
    /// It starves and is about to park.
    WaitStarving,
    /// It starves and is parked.
    ParkedStarving,
    /// It starves and was notified, and is about to take the lock.
    Grab,
    /// It has the lock.
    Done,
}

impl LockStage {
    /// The thread is counted among those that starve.
    pub open spec fn starving(self) -> bool {
        ||| self is ListenStarving
        ||| self is TryStarving
        ||| self is WaitStarving
        ||| self is ParkedStarving
        ||| self is Grab
    }

    pub open spec fn listening(self) -> bool {
        ||| self is Try
        ||| self is Wait
        ||| self is Parked
        ||| self is TryStarving
        ||| self is WaitStarving
        ||| self is ParkedStarving
    }

    /// The thread waits to be notified.
    pub open spec fn waiting(self) -> bool {
        ||| self is Wait
        ||| self is Parked
        ||| self is WaitStarving
        ||| self is ParkedStarving
    }

    /// The thread is on its way: it has more steps to make before it waits or has the lock.
    pub open spec fn busy(self) -> bool {
        !self.waiting() && !(self is Done)
    }
}

/// What a thread does after a step.
#[derive(Clone, Copy, Debug, PartialEq, Eq, Structural)]
pub enum LockStep {
    /// The next step.
    Again,
    /// It spins that often.
    Spin(u32),
    /// It lets others run.
    Yield,
    /// It parks until it is unparked.
    Park,
    /// It has the lock.
    Acquired,
}

/// How often a thread spins that has looked at the lock `n` times before.
pub open spec fn spins(n: u32) -> u32 {
    if n == 0 {
        1
    } else if n == 1 {
        2
    } else if n == 2 {
        4
    } else {
        8
    }
}

/// Where a step leads: what the thread does then, the next stage, and the state of the lock. Here
/// `late` says that the thread has waited for too long, and `notified` that it was notified.
pub open spec fn transition(
    stage: LockStage,
    state: int,
    late: bool,
    notified: bool,
) -> (LockStep, LockStage, int) {
    match stage {
        LockStage::Spin(n) => if state == 0 {
            (LockStep::Acquired, LockStage::Done, 1)
        } else if state != 1 {
            (LockStep::Again, LockStage::Clock, state)
        } else {
            (
                if n <= 3 {
                    LockStep::Spin(spins(n))
                } else {
                    LockStep::Yield
                },
                if n + 1 < TRIES {
                    LockStage::Spin((n + 1) as u32)
                } else {
                    LockStage::Clock
                },
                state,
            )
        },
        LockStage::Clock => (LockStep::Again, LockStage::Listen, state),
        LockStage::Listen => (LockStep::Again, LockStage::Try, state),
        LockStage::Try => if state == 0 {
            (LockStep::Acquired, LockStage::Done, 1)
        } else if state == 1 {
            (LockStep::Again, LockStage::Wait, state)
        } else {
            (LockStep::Again, LockStage::Starve, state)
        },
        LockStage::Wait | LockStage::Parked => if notified {
            (LockStep::Again, LockStage::Retry, state)
        } else {
            (LockStep::Park, LockStage::Parked, state)
        },
        LockStage::Retry => if state == 0 {
            (LockStep::Acquired, LockStage::Done, 1)
        } else if state == 1 && !late {
            (LockStep::Again, LockStage::Listen, state)
        } else {
            (LockStep::Again, LockStage::Starve, state)
        },
        LockStage::Starve => (LockStep::Again, LockStage::ListenStarving, state + 2),
        LockStage::ListenStarving => (LockStep::Again, LockStage::TryStarving, state),
        LockStage::TryStarving => if state == 2 {
            (LockStep::Acquired, LockStage::Done, 1)
        } else {
            (LockStep::Again, LockStage::WaitStarving, state)
        },
        LockStage::WaitStarving | LockStage::ParkedStarving => if notified {
            (LockStep::Again, LockStage::Grab, state)
        } else {
            (LockStep::Park, LockStage::ParkedStarving, state)
        },
        LockStage::Grab => if state % 2 == 0 {
            (LockStep::Acquired, LockStage::Done, state - 1)
        } else {
            (LockStep::Again, LockStage::ListenStarving, state)
        },
        LockStage::Done => (LockStep::Acquired, LockStage::Done, state),
    }
}

/// A thread that takes a lock.
pub struct Locking {
    start: Nanos,
    stage: LockStage,
    listener: Option<EventListener>,
}

impl Locking {
    /// When the thread began to listen.
    pub closed spec fn start(&self) -> Nanos {
        self.start
    }

    pub closed spec fn stage(&self) -> LockStage {
        self.stage
    }

    pub closed spec fn listener(&self) -> Option<EventListener> {
        self.listener
    }

    pub open spec fn wf<T>(&self, mutex: &Mutex<T>) -> bool {
        &&& (self.listener() is Some) == self.stage().listening()
        &&& self.listener() matches Some(listener) ==> listener.active(&mutex.ops())
        &&& self.stage().starving() ==> mutex.starving() > 0
        &&& self.stage() matches LockStage::Spin(n) ==> n < TRIES
    }

    pub open spec fn notified<T>(&self, mutex: &Mutex<T>) -> bool {
        self.listener() matches Some(listener) && listener.state(&mutex.ops()) is Notified
    }

    /// The thread waits, and was not notified.
    pub open spec fn idle<T>(&self, mutex: &Mutex<T>) -> bool {
        self.stage().waiting() && !self.notified(mutex)
    }

    /// What a step does to those who wait.
    pub open spec fn tells(
        &self,
        after: &Locking,
        state: int,
        ops: &Event,
        ops_after: &Event,
        thread: u64,
        woken: Seq<Wake>,
        woken_after: Seq<Wake>,
    ) -> bool {
        match self.stage() {
            LockStage::Listen | LockStage::ListenStarving => {
                &&& listens(ops, ops_after, &after.listener()->0)
                &&& woken_after == woken
            },
            LockStage::Try => if state == 1 {
                &&& after.listener() == self.listener()
                &&& keeps(ops, ops_after)
                &&& woken_after == woken
            } else {
                drops(&self.listener()->0, ops, ops_after, woken, woken_after)
            },
            LockStage::Wait
            | LockStage::WaitStarving
            | LockStage::Parked
            | LockStage::ParkedStarving => {
                let listener = self.listener()->0;
                &&& woken_after == woken
                &&& if listener.state(ops) is Notified {
                    removes(ops, ops_after, listener.place(ops))
                } else {
                    &&& if self.stage() is Wait || self.stage() is WaitStarving {
                        restates(ops, ops_after, listener.place(ops), State::Waiting(thread))
                    } else {
                        keeps(ops, ops_after)
                    }
                    &&& after.listener() matches Some(l) && l.entry() == listener.entry()
                        && l.event() == listener.event()
                }
            },
            LockStage::Retry => if state > 1 {
                notifies(ops, ops_after, 1, woken, woken_after)
            } else {
                keeps(ops, ops_after) && woken_after == woken
            },
            LockStage::TryStarving => if state == 2 {
                drops(&self.listener()->0, ops, ops_after, woken, woken_after)
            } else {
                &&& after.listener() == self.listener()
                &&& keeps(ops, ops_after)
                &&& woken_after == woken
            },
            _ => keeps(ops, ops_after) && woken_after == woken,
        }
    }

    /// Makes the next step, in the thread `thread` at the time `now`.
    pub fn step<T>(
        &mut self,
        mutex: &mut Mutex<T>,
        thread: u64,
        now: Nanos,
        woken: &mut Vec<Wake>,
    ) -> (r: LockStep)
        requires
            old(mutex).wf(),
            old(self).wf(old(mutex)),
            !(old(self).stage() is Done),
            old(self).stage() is Starve ==> old(mutex).state() <= usize::MAX - 2,
        ensures
            final(mutex).wf(),
            final(self).wf(final(mutex)),
            final(self).start() == (if old(self).stage() is Clock {
                now
            } else {
                old(self).start()
            }),
            final(mutex).data() == old(mutex).data(),
            transition(
                old(self).stage(),
                old(mutex).state() as int,
                is_late(old(self).start(), now),
                old(self).notified(old(mutex)),
            ) == (r, final(self).stage(), final(mutex).state() as int),
            old(self).tells(
                final(self),
                old(mutex).state() as int,
                &old(mutex).ops(),
                &final(mutex).ops(),
                thread,
                old(woken)@,
                final(woken)@,
            ),
            // The lock is taken only if nobody held it, and is held from then on.
            r is Acquired ==> !old(mutex).locked() && final(mutex).locked(),
            !(r is Acquired) ==> final(mutex).locked() == old(mutex).locked(),
            r is Park ==> old(self).stage().waiting() && !old(self).notified(old(mutex)),
    {
        proof {
            law_exclusive(
                self.stage(),
                mutex.state() as int,
                is_late(self.start(), now),
                self.notified(mutex),
            );
        }
        match self.stage {
            LockStage::Spin(n) => self.spin(mutex, n),
            LockStage::Clock => {
                self.start = now;
                self.stage = LockStage::Listen;
                LockStep::Again
            },
            LockStage::Listen | LockStage::ListenStarving => {
                let listener = mutex.lock_ops.listen();
                proof {
                    lemma_listens(&old(mutex).lock_ops, &mutex.lock_ops, &listener);
                }
                self.listener = Some(listener);
                self.stage = match self.stage {
                    LockStage::Listen => LockStage::Try,
                    _ => LockStage::TryStarving,
                };
                LockStep::Again
            },
            LockStage::Try => {
                if mutex.state == 1 {
                    self.stage = LockStage::Wait;
                    return LockStep::Again;
                }
                match self.listener.take() {
                    Some(listener) => listener.drop(&mut mutex.lock_ops, woken),
                    None => {},
                }
                if mutex.state == 0 {
                    mutex.state = 1;
                    self.stage = LockStage::Done;
                    LockStep::Acquired
                } else {
                    self.stage = LockStage::Starve;
                    LockStep::Again
                }
            },
            LockStage::Wait | LockStage::WaitStarving => self.park(mutex, thread),
            LockStage::Parked | LockStage::ParkedStarving => self.unparked(mutex),
            LockStage::Retry => {
                if mutex.state == 0 {
                    mutex.state = 1;
                    self.stage = LockStage::Done;
                    return LockStep::Acquired;
                }
                if mutex.state != 1 {
                    mutex.lock_ops.notify(1, woken);
                    self.stage = LockStage::Starve;
                } else if now > self.start && now - self.start > PATIENCE {
                    self.stage = LockStage::Starve;
                } else {
                    self.stage = LockStage::Listen;
                }
                LockStep::Again
            },
            LockStage::Starve => {
                mutex.state = mutex.state + 2;
                self.stage = LockStage::ListenStarving;
                LockStep::Again
            },
            LockStage::TryStarving => {
                if mutex.state == 2 {
                    match self.listener.take() {
                        Some(listener) => listener.drop(&mut mutex.lock_ops, woken),
                        None => {},
                    }
                    mutex.state = 1;
                    self.stage = LockStage::Done;
                    return LockStep::Acquired;
                }
                self.stage = LockStage::WaitStarving;
                LockStep::Again
            },
            LockStage::Grab => {
                if mutex.state % 2 == 0 {
                    mutex.state = mutex.state - 1;
                    self.stage = LockStage::Done;
                    LockStep::Acquired
                } else {
                    self.stage = LockStage::ListenStarving;
                    LockStep::Again
                }
            },
            LockStage::Done => LockStep::Acquired,
        }
    }

    fn spin<T>(&mut self, mutex: &mut Mutex<T>, n: u32) -> (r: LockStep)
        requires
            old(mutex).wf(),
            old(self).stage() == LockStage::Spin(n),
            old(self).listener() is None,
            n < TRIES,
        ensures
            final(mutex).wf(),
            final(self).wf(final(mutex)),
            final(self).start() == old(self).start(),
            final(self).listener() is None,
            final(mutex).data() == old(mutex).data(),
            final(mutex).ops() == old(mutex).ops(),
            forall|late: bool, notified: bool| #[trigger]
                transition(old(self).stage(), old(mutex).state() as int, late, notified) == (
                    r,
                    final(self).stage(),
                    final(mutex).state() as int,
                ),
    {
        if mutex.state == 0 {
            mutex.state = 1;
            self.stage = LockStage::Done;
            return LockStep::Acquired;
        }
        if mutex.state != 1 {
            self.stage = LockStage::Clock;
            return LockStep::Again;
        }
        self.stage = if n + 1 < TRIES {
            LockStage::Spin(n + 1)
        } else {
            LockStage::Clock
        };
        if n <= 3 {
            assert(1u32 << 0 == 1 && 1u32 << 1 == 2 && 1u32 << 2 == 4 && 1u32 << 3 == 8)
                by (bit_vector);
            LockStep::Spin(1u32 << n)
        } else {
            LockStep::Yield
        }
    }

    fn park<T>(&mut self, mutex: &mut Mutex<T>, thread: u64) -> (r: LockStep)
        requires
            old(mutex).wf(),
            old(self).wf(old(mutex)),
            old(self).stage() is Wait || old(self).stage() is WaitStarving,
        ensures
            final(mutex).wf(),
            final(self).wf(final(mutex)),
            final(self).start() == old(self).start(),
            final(mutex).data() == old(mutex).data(),
            forall|late: bool| #[trigger]
                transition(
                    old(self).stage(),
                    old(mutex).state() as int,
                    late,
                    old(self).notified(old(mutex)),
                ) == (r, final(self).stage(), final(mutex).state() as int),
            forall|woken: Seq<Wake>|
                old(self).tells(
                    final(self),
                    old(mutex).state() as int,
                    &old(mutex).ops(),
                    &final(mutex).ops(),
                    thread,
                    woken,
                    woken,
                ),
    {
        let starving = match self.stage {
            LockStage::Wait => false,
            _ => true,
        };
        match self.listener.take() {
            Some(mut listener) => if listener.start_wait(&mut mutex.lock_ops, thread) {
                self.stage = if starving {
                    LockStage::Grab
                } else {
                    LockStage::Retry
                };
                LockStep::Again
            } else {
                self.listener = Some(listener);
                self.stage = if starving {
                    LockStage::ParkedStarving
                } else {
                    LockStage::Parked
                };
                LockStep::Park
            },
            None => LockStep::Park,
        }
    }

    fn unparked<T>(&mut self, mutex: &mut Mutex<T>) -> (r: LockStep)
        requires
            old(mutex).wf(),
            old(self).wf(old(mutex)),
            old(self).stage() is Parked || old(self).stage() is ParkedStarving,
        ensures
            final(mutex).wf(),
            final(self).wf(final(mutex)),
            final(self).start() == old(self).start(),
            final(mutex).data() == old(mutex).data(),
            forall|late: bool| #[trigger]
                transition(
                    old(self).stage(),
                    old(mutex).state() as int,
                    late,
                    old(self).notified(old(mutex)),
                ) == (r, final(self).stage(), final(mutex).state() as int),
            forall|thread: u64, woken: Seq<Wake>|
                old(self).tells(
                    final(self),
                    old(mutex).state() as int,
                    &old(mutex).ops(),
                    &final(mutex).ops(),
                    thread,
                    woken,
                    woken,
                ),
    {
        let starving = match self.stage {
            LockStage::Parked => false,
            _ => true,
        };
        match self.listener.take() {
            Some(mut listener) => if listener.check_wait(&mut mutex.lock_ops) {
                self.stage = if starving {
                    LockStage::Grab
                } else {
                    LockStage::Retry
                };
                LockStep::Again
            } else {
                self.listener = Some(listener);
                LockStep::Park
            },
            None => LockStep::Park,
        }
    }
}

/// Mutual exclusion: a step takes the lock only if it is free, and no step frees it. The threads
/// that starve are counted throughout.
pub proof fn law_exclusive(stage: LockStage, state: int, late: bool, notified: bool)
    requires
        0 <= state,
        !(stage is Done),
        stage.starving() ==> state >= 2,
    ensures
        ({
            let (step, next, after) = transition(stage, state, late, notified);
            &&& step is Acquired <==> next is Done
            &&& step is Acquired ==> state % 2 == 0 && after % 2 == 1
            &&& !(step is Acquired) ==> after % 2 == state % 2
            &&& after / 2 - (if next.starving() {
                1int
            } else {
                0
            }) == state / 2 - (if stage.starving() {
                1int
            } else {
                0
            })
        }),
{
}

/// Fairness: as long as a thread starves, no thread that does not starve takes the lock.
pub proof fn law_starving_first(stage: LockStage, state: int, late: bool, notified: bool)
    requires
        0 <= state,
        state / 2 > 0,
        !(stage is Done),
        !stage.starving(),
    ensures
        !(transition(stage, state, late, notified).0 is Acquired),
{
}

/// A thread looks at a lock that stays held ten times before it listens to it.
pub proof fn law_patience(n: u32)
    requires
        n < TRIES,
    ensures
        transition(LockStage::Spin(n), 1, false, false).1 == (if n < 9 {
            LockStage::Spin((n + 1) as u32)
        } else {
            LockStage::Clock
        }),
{
}

/// What the next step of a thread that takes a lock leaves behind.
pub open spec fn locking_steps<T>(
    before: &Locking,
    after: &Locking,
    mutex: &Mutex<T>,
    mutex_after: &Mutex<T>,
    thread: u64,
    now: Nanos,
    woken: Seq<Wake>,
    woken_after: Seq<Wake>,
) -> bool {
    let (_, stage, state) = transition(
        before.stage(),
        mutex.state() as int,
        is_late(before.start(), now),
        before.notified(mutex),
    );
    &&& after.stage() == stage
    &&& after.start() == (if before.stage() is Clock {
        now
    } else {
        before.start()
    })
    &&& mutex_after.state() == state
    &&& before.tells(
        after,
        mutex.state() as int,
        &mutex.ops(),
        &mutex_after.ops(),
        thread,
        woken,
        woken_after,
    )
}

/// Two threads may wait side by side: they stand at different places, and are both counted where both
/// starve.
pub open spec fn beside<T>(a: &Locking, b: &Locking, mutex: &Mutex<T>) -> bool {
    &&& apart(a.listener(), b.listener())
    &&& a.stage().starving() && b.stage().starving() ==> mutex.starving() >= 2
}

/// A step of one thread leaves another that waits beside it as it was, but for a notification.
pub proof fn law_others_wait<T>(
    before: &Locking,
    after: &Locking,
    mutex: &Mutex<T>,
    mutex_after: &Mutex<T>,
    thread: u64,
    now: Nanos,
    woken: Seq<Wake>,
    woken_after: Seq<Wake>,
    other: &Locking,
)
    requires
        mutex.wf(),
        before.wf(mutex),
        !(before.stage() is Done),
        locking_steps(before, after, mutex, mutex_after, thread, now, woken, woken_after),
        after.wf(mutex_after),
        other.wf(mutex),
        beside(before, other, mutex),
    ensures
        other.wf(mutex_after),
        beside(after, other, mutex_after),
        other.listener() matches Some(listener) ==> undisturbed(
            &listener,
            &mutex.ops(),
            &mutex_after.ops(),
        ),
{
    let ops = mutex.ops();
    let ops_after = mutex_after.ops();
    let state = mutex.state();
    ops.lemma_order();
    if other.listener() is Some {
        let l = other.listener()->0;
        assert(ops.entries()[l.place(&ops)].id == l.entry()->0);
        if before.listener() is Some {
            let own = before.listener()->0;
            let at = own.place(&ops);
            assert(ops.entries()[at].id == own.entry()->0);
            match before.stage() {
                LockStage::Wait
                | LockStage::WaitStarving
                | LockStage::Parked
                | LockStage::ParkedStarving => {
                    if own.state(&ops) is Notified {
                        law_others_stay(&ops, &ops_after, at, &l);
                    } else if before.stage() is Wait || before.stage() is WaitStarving {
                        lemma_restates(&ops, &ops_after, at, State::Waiting(thread), &l);
                    }
                },
                _ => {
                    if drops(&own, &ops, &ops_after, woken, woken_after) {
                        law_others_stay_drop(&own, &ops, &ops_after, woken, woken_after, &l);
                    }
                },
            }
        }
        if before.stage() is Listen || before.stage() is ListenStarving {
            law_others_stay_listen(&ops, &ops_after, &after.listener()->0, &l);
        }
        if notifies(&ops, &ops_after, 1, woken, woken_after) {
            law_others_stay_notify(
                &ops,
                &ops_after,
                1,
                woken,
                woken_after,
                &l,
            );
        }
    }
}

/// The threads that acquire or hold a lock, together: each listens at a place of its own, those that
/// starve are counted, and if the lock is held then by one of them.
pub open spec fn crowd<T>(threads: Seq<Locking>, mutex: &Mutex<T>) -> bool {
    &&& forall|i: int| 0 <= i < threads.len() ==> (#[trigger] threads[i]).wf(mutex)
    &&& forall|i: int, j: int|
        0 <= i < threads.len() && 0 <= j < threads.len() && i != j ==> apart(
            (#[trigger] threads[i]).listener(),
            (#[trigger] threads[j]).listener(),
        )
    &&& tally(threads.map_values(|one: Locking| one.stage().starving())) == mutex.starving()
    &&& tally(threads.map_values(|one: Locking| one.stage() is Done)) == (if mutex.locked() {
        1nat
    } else {
        0
    })
}

/// Nobody waits for a lock that is free without somebody to look after them: as long as nobody holds
/// the lock and a thread waits that was not notified, another one was notified or is on its way to the
/// lock. And nobody listens but those threads.
pub open spec fn attended<T>(threads: Seq<Locking>, mutex: &Mutex<T>) -> bool {
    &&& mutex.ops().entries().len() == tally(
        threads.map_values(|one: Locking| one.listener() is Some),
    )
    &&& !mutex.locked() && (exists|i: int| 0 <= i < threads.len() && (#[trigger] threads[i]).idle(mutex))
        ==> {
        ||| mutex.ops().notified() > 0
        ||| exists|j: int| 0 <= j < threads.len() && (#[trigger] threads[j]).stage().busy()
    }
}

/// Nobody waits for a new lock.
pub proof fn law_crowd_new<T>(mutex: &Mutex<T>)
    requires
        mutex.state() == 0,
    ensures
        crowd(Seq::empty(), mutex),
        mutex.ops().entries().len() == 0 ==> attended(Seq::empty(), mutex),
{
    let none: Seq<Locking> = Seq::empty();
    assert(none.map_values(|one: Locking| one.listener() is Some) =~= Seq::empty());
    assert(none.map_values(|one: Locking| one.stage().starving()) =~= Seq::empty());
    assert(none.map_values(|one: Locking| one.stage() is Done) =~= Seq::empty());
}

/// A thread may join the others at any time: one that begins to acquire the lock, or one that just
/// took it because nobody held it and nobody starved.
pub proof fn law_crowd_join<T>(
    threads: Seq<Locking>,
    thread: Locking,
    mutex: &Mutex<T>,
    mutex_after: &Mutex<T>,
)
    requires
        crowd(threads, mutex),
        thread.listener() is None,
        mutex_after.ops() == mutex.ops(),
        ({
            ||| thread.stage() == LockStage::Spin(0) && mutex_after.state() == mutex.state()
            ||| thread.stage() is Done && mutex.state() == 0 && mutex_after.state() == 1
        }),
    ensures
        crowd(threads.push(thread), mutex_after),
        attended(threads, mutex) ==> attended(threads.push(thread), mutex_after),
{
    let starving = |one: Locking| one.stage().starving();
    let done = |one: Locking| one.stage() is Done;
    let hears = |one: Locking| one.listener() is Some;
    let next = threads.push(thread);
    assert(next.map_values(hears).drop_last() =~= threads.map_values(hears));
    if attended(threads, mutex) && !mutex_after.locked() {
        assert forall|i: int| 0 <= i < next.len() && (#[trigger] next[i]).idle(mutex_after) implies
            mutex_after.ops().notified() > 0 || exists|j: int|
            0 <= j < next.len() && (#[trigger] next[j]).stage().busy() by {
            assert(next[i] == threads[i]);
            assert(threads[i].idle(mutex));
            if mutex.ops().notified() == 0 {
                let j = choose|j: int| 0 <= j < threads.len() && (#[trigger] threads[j]).stage().busy();
                assert(next[j] == threads[j]);
            }
        }
    }
    assert(next.map_values(starving).drop_last() =~= threads.map_values(starving));
    assert(next.map_values(done).drop_last() =~= threads.map_values(done));
    assert forall|i: int| 0 <= i < next.len() implies (#[trigger] next[i]).wf(mutex_after) by {
        if i < threads.len() {
            assert(next[i] == threads[i]);
        }
    }
    assert forall|i: int, j: int|
        0 <= i < next.len() && 0 <= j < next.len() && i != j implies apart(
        (#[trigger] next[i]).listener(),
        (#[trigger] next[j]).listener(),
    ) by {
        if i < threads.len() && j < threads.len() {
            assert(apart(threads[i].listener(), threads[j].listener()));
        }
    }
}

/// Whatever step a thread makes, all threads stay well-formed, those that starve are counted, and no
/// two of them hold the lock.
pub proof fn law_crowd<T>(
    threads: Seq<Locking>,
    at: int,
    after: Locking,
    mutex: &Mutex<T>,
    mutex_after: &Mutex<T>,
    thread: u64,
    now: Nanos,
    woken: Seq<Wake>,
    woken_after: Seq<Wake>,
)
    requires
        mutex.wf(),
        crowd(threads, mutex),
        0 <= at < threads.len(),
        !(threads[at].stage() is Done),
        locking_steps(&threads[at], &after, mutex, mutex_after, thread, now, woken, woken_after),
        after.wf(mutex_after),
    ensures
        crowd(threads.update(at, after), mutex_after),
        attended(threads, mutex) && !(threads[at].stage() is TryStarving && mutex.state() > 2
            && !mutex.locked()) ==> attended(threads.update(at, after), mutex_after),
{
    let starving = |one: Locking| one.stage().starving();
    let done = |one: Locking| one.stage() is Done;
    let marks = threads.map_values(starving);
    let held = threads.map_values(done);
    let next = threads.update(at, after);
    let before = threads[at];
    assert(next.map_values(starving) =~= marks.update(at, starving(after)));
    assert(next.map_values(done) =~= held.update(at, done(after)));
    lemma_tally_update(marks, at, starving(after));
    lemma_tally_update(held, at, done(after));
    law_exclusive(
        before.stage(),
        mutex.state() as int,
        is_late(before.start(), now),
        before.notified(mutex),
    );
    assert forall|j: int| 0 <= j < threads.len() && j != at implies (#[trigger] threads[j]).wf(
        mutex_after,
    ) && beside(&after, &threads[j], mutex_after) by {
        if starving(before) && starving(threads[j]) {
            lemma_tally_update(marks, at, false);
            lemma_tally_marked(marks.update(at, false), j);
        }
        assert(apart(threads[at].listener(), threads[j].listener()));
        law_others_wait(
            &before,
            &after,
            mutex,
            mutex_after,
            thread,
            now,
            woken,
            woken_after,
            &threads[j],
        );
    }
    assert forall|i: int, j: int|
        0 <= i < next.len() && 0 <= j < next.len() && i != j implies apart(
        (#[trigger] next[i]).listener(),
        (#[trigger] next[j]).listener(),
    ) by {
        assert(i != at ==> next[i] == threads[i]);
        assert(j != at ==> next[j] == threads[j]);
        if i == at {
            assert(beside(&after, &threads[j], mutex_after));
        } else if j == at {
            assert(beside(&after, &threads[i], mutex_after));
        } else {
            assert(apart(threads[i].listener(), threads[j].listener()));
        }
    }
    assert forall|i: int| 0 <= i < next.len() implies (#[trigger] next[i]).wf(mutex_after) by {
        assert(i != at ==> next[i] == threads[i]);
    }
    if attended(threads, mutex) && !(threads[at].stage() is TryStarving && mutex.state() > 2
        && !mutex.locked()) {
        lemma_attended(
            threads,
            at,
            after,
            mutex,
            mutex_after,
            thread,
            now,
            woken,
            woken_after,
        );
    }
}

/// What a step does to how many listen and how many of them are notified: as long as the lock is
/// free, a notification is lost only to the thread itself, which then is on its way.
proof fn lemma_step_counts<T>(
    before: &Locking,
    after: &Locking,
    mutex: &Mutex<T>,
    mutex_after: &Mutex<T>,
    thread: u64,
    now: Nanos,
    woken: Seq<Wake>,
    woken_after: Seq<Wake>,
)
    requires
        mutex.wf(),
        before.wf(mutex),
        !(before.stage() is Done),
        !(before.stage() is TryStarving && mutex.state() > 2 && !mutex.locked()),
        locking_steps(before, after, mutex, mutex_after, thread, now, woken, woken_after),
        after.wf(mutex_after),
    ensures
        mutex_after.ops().entries().len() == mutex.ops().entries().len() + (
        if after.listener() is Some {
            1int
        } else {
            0
        }) - (if before.listener() is Some {
            1int
        } else {
            0
        }),
        !mutex_after.locked() ==> after.stage().busy() || mutex_after.ops().notified() > 0
            || before.idle(mutex) && after.idle(mutex_after) && mutex_after.ops().notified()
            == mutex.ops().notified(),
        !mutex_after.locked() && mutex.ops().notified() > 0 ==> after.stage().busy()
            || mutex_after.ops().notified() > 0,
{
    let ops = mutex.ops();
    let ops_after = mutex_after.ops();
    ops.lemma_order();
    law_exclusive(
        before.stage(),
        mutex.state() as int,
        is_late(before.start(), now),
        before.notified(mutex),
    );
    if before.listener() is Some {
        let own = before.listener()->0;
        let at = own.place(&ops);
        assert(ops.entries()[at].id == own.entry()->0);
        if before.stage().waiting() {
            if !(own.state(&ops) is Notified) && (before.stage() is Wait || before.stage() is WaitStarving) {
                lemma_restates(&ops, &ops_after, at, State::Waiting(thread), &own);
                assert(after.listener()->0.entry() == own.entry());
            }
        } else if drops(&own, &ops, &ops_after, woken, woken_after) {
            law_drop_counts(&own, &ops, &ops_after, woken, woken_after);
        }
    }
    if notifies(&ops, &ops_after, 1, woken, woken_after) {
        law_notifies(&ops, &ops_after, 1, woken, woken_after);
    }
}

/// Whatever step a thread makes, nobody who waits is forgotten.
#[verifier::spinoff_prover]
#[verifier::rlimit(50)]
proof fn lemma_attended<T>(
    threads: Seq<Locking>,
    at: int,
    after: Locking,
    mutex: &Mutex<T>,
    mutex_after: &Mutex<T>,
    thread: u64,
    now: Nanos,
    woken: Seq<Wake>,
    woken_after: Seq<Wake>,
)
    requires
        mutex.wf(),
        crowd(threads, mutex),
        attended(threads, mutex),
        0 <= at < threads.len(),
        !(threads[at].stage() is Done),
        !(threads[at].stage() is TryStarving && mutex.state() > 2 && !mutex.locked()),
        locking_steps(&threads[at], &after, mutex, mutex_after, thread, now, woken, woken_after),
        after.wf(mutex_after),
    ensures
        attended(threads.update(at, after), mutex_after),
{
    let hears = |one: Locking| one.listener() is Some;
    let next = threads.update(at, after);
    let before = threads[at];
    let heard = threads.map_values(hears);
    assert(before.wf(mutex));
    assert(next.map_values(hears) =~= heard.update(at, hears(after)));
    lemma_tally_update(heard, at, hears(after));
    lemma_step_counts(&before, &after, mutex, mutex_after, thread, now, woken, woken_after);
    law_exclusive(
        before.stage(),
        mutex.state() as int,
        is_late(before.start(), now),
        before.notified(mutex),
    );
    assert(next[at] == after);
    if !mutex_after.locked() && mutex_after.ops().notified() == 0 && !after.stage().busy() {
        assert forall|i: int| 0 <= i < next.len() && (#[trigger] next[i]).idle(mutex_after) implies
            exists|j: int| 0 <= j < next.len() && (#[trigger] next[j]).stage().busy() by {
            assert(before.idle(mutex));
            assert(threads[at].idle(mutex));
            let j = choose|j: int| 0 <= j < threads.len() && (#[trigger] threads[j]).stage().busy();
            assert(j != at);
            assert(next[j] == threads[j]);
        }
    }
}

/// A thread that gives the lock back leaves the others as they were, but for a notification, and so
/// the lock to one of them.
pub proof fn law_crowd_unlock<T>(
    threads: Seq<Locking>,
    at: int,
    mutex: &Mutex<T>,
    mutex_after: &Mutex<T>,
    woken: Seq<Wake>,
    woken_after: Seq<Wake>,
)
    requires
        mutex.wf(),
        crowd(threads, mutex),
        0 <= at < threads.len(),
        threads[at].stage() is Done,
        mutex_after.state() == mutex.state() - 1,
        notifies(&mutex.ops(), &mutex_after.ops(), 1, woken, woken_after),
    ensures
        mutex.locked(),
        crowd(threads.remove(at), mutex_after),
        attended(threads, mutex) ==> attended(threads.remove(at), mutex_after),
{
    law_notifies(&mutex.ops(), &mutex_after.ops(), 1, woken, woken_after);
    if attended(threads, mutex) {
        let hears = |one: Locking| one.listener() is Some;
        let heard = threads.map_values(hears);
        assert(threads.remove(at).map_values(hears) =~= heard.remove(at));
        assert(threads[at].wf(mutex));
        lemma_tally_remove(heard, at);
        let next = threads.remove(at);
        assert forall|i: int| 0 <= i < next.len() && (#[trigger] next[i]).idle(mutex_after) implies
            mutex_after.ops().notified() > 0 by {
            let k = if i < at {
                i
            } else {
                i + 1
            };
            assert(next[i] == threads[k]);
            assert(threads[k].wf(mutex));
            assert(heard[k]);
            lemma_tally_marked(heard, k);
        }
    }
    let starving = |one: Locking| one.stage().starving();
    let done = |one: Locking| one.stage() is Done;
    let next = threads.remove(at);
    assert(next.map_values(starving) =~= threads.map_values(starving).remove(at));
    assert(next.map_values(done) =~= threads.map_values(done).remove(at));
    lemma_tally_remove(threads.map_values(starving), at);
    lemma_tally_remove(threads.map_values(done), at);
    let ops = mutex.ops();
    ops.lemma_order();
    assert forall|j: int| 0 <= j < threads.len() implies (#[trigger] threads[j]).wf(mutex_after) by {
        if threads[j].listener() is Some {
            law_others_stay_notify(
                &ops,
                &mutex_after.ops(),
                1,
                woken,
                woken_after,
                &(threads[j].listener()->0),
            );
        }
    }
    lemma_rest_apart(threads, at);
    assert forall|i: int| 0 <= i < next.len() implies (#[trigger] next[i]).wf(mutex_after) by {
        assert(next[i] == threads[if i < at {
            i
        } else {
            i + 1
        }]);
    }
}

/// Where one thread leaves, the others still stand apart.
proof fn lemma_rest_apart(threads: Seq<Locking>, at: int)
    requires
        0 <= at < threads.len(),
        forall|i: int, j: int|
            0 <= i < threads.len() && 0 <= j < threads.len() && i != j ==> apart(
                (#[trigger] threads[i]).listener(),
                (#[trigger] threads[j]).listener(),
            ),
    ensures
        forall|i: int, j: int|
            0 <= i < threads.len() - 1 && 0 <= j < threads.len() - 1 && i != j ==> apart(
                (#[trigger] threads.remove(at)[i]).listener(),
                (#[trigger] threads.remove(at)[j]).listener(),
            ),
{
    let next = threads.remove(at);
    assert forall|i: int, j: int|
        0 <= i < next.len() && 0 <= j < next.len() && i != j implies apart(
        (#[trigger] next[i]).listener(),
        (#[trigger] next[j]).listener(),
    ) by {
        let p = if i < at {
            i
        } else {
            i + 1
        };
        let q = if j < at {
            j
        } else {
            j + 1
        };
        assert(next[i] == threads[p]);
        assert(next[j] == threads[q]);
        assert(apart(threads[p].listener(), threads[q].listener()));
    }
}

/// Whoever looks at a lock that is free and for which nobody starves takes it, and whoever starves and
/// is notified takes it if it is free. One waits only after having listened and found the lock held or
/// somebody else starving, and no longer than until one is notified.
pub proof fn law_proceeds(stage: LockStage, state: int, late: bool, notified: bool)
    requires
        0 <= state <= usize::MAX,
        !(stage is Done),
        stage.starving() ==> state >= 2,
    ensures
        ({
            let (step, next, after) = transition(stage, state, late, notified);
            &&& state == 0 && (stage is Spin || stage is Try || stage is Retry) ==> step is Acquired
            &&& state == 2 && stage is TryStarving ==> step is Acquired
            &&& state % 2 == 0 && stage is Grab ==> step is Acquired
            &&& step is Park <==> stage.waiting() && !notified
            &&& stage.waiting() && notified ==> !next.waiting()
            &&& stage.waiting() && !notified ==> next.waiting() && after == state
            &&& next.waiting() && !stage.waiting() ==> stage.listening() && state > 0
            &&& next is Wait && !stage.waiting() ==> state % 2 == 1
        }),
{
}

/// One starves only after having waited for too long or because somebody else starves already, and
/// then until one has the lock.
pub proof fn law_starves(stage: LockStage, state: int, late: bool, notified: bool)
    requires
        0 <= state <= usize::MAX,
        !(stage is Done),
        stage.starving() ==> state >= 2,
    ensures
        ({
            let (step, next, after) = transition(stage, state, late, notified);
            &&& stage is Retry && late && state > 0 ==> next is Starve
            &&& stage is Retry && state > 1 ==> next is Starve
            &&& next is Starve && !(stage is Starve) ==> state > 1 || state == 1 && late
            &&& next.starving() && !stage.starving() ==> stage is Starve && after == state + 2
            &&& stage.starving() ==> next.starving() || next is Done
        }),
{
}

/// The thread has waited for too long after half a millisecond, counted from before it listened for the
/// first time.
pub proof fn law_waited<T>(
    before: &Locking,
    after: &Locking,
    mutex: &Mutex<T>,
    mutex_after: &Mutex<T>,
    thread: u64,
    now: Nanos,
    woken: Seq<Wake>,
    woken_after: Seq<Wake>,
)
    requires
        after.wf(mutex_after),
        locking_steps(before, after, mutex, mutex_after, thread, now, woken, woken_after),
    ensures
        is_late(before.start(), now) <==> now > before.start() + 500_000,
        before.stage() is Clock ==> after.start() == now,
        !(before.stage() is Clock) ==> after.start() == before.start(),
        before.stage() is Listen || before.stage() is ListenStarving ==> (
        after.listener() matches Some(listener) && listens(
            &mutex.ops(),
            &mutex_after.ops(),
            &listener,
        )),
{
}

} // verus!
