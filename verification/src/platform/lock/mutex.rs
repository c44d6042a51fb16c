//! A lock that tasks wait for without blocking their thread.
//!
//! The state of the lock is one number: its lowest bit says that the lock is held, and the rest
//! counts the tasks that have waited for too long. While there are such tasks nobody else takes the
//! lock on the quick.
//!
//! A task acquires a held lock by a sequence of steps, and steps of other tasks may come between
//! any two of them. So each step is one call of [`Acquire::step`].

use vstd::prelude::*;
use crate::platform::event::listener::{
    apart, drops, keeps, law_drop_counts, law_notifies, law_others_stay, law_others_stay_drop,
    law_others_stay_listen, law_others_stay_notify, lemma_listens, lemma_notifies, lemma_restates,
    listens, notifies, removes, restates, stirs, undisturbed, Event, EventListener, State,
};
use crate::task::{Context, Nanos, Poll, Wake};

verus! {

/// How long a task waits until it starves, in nanoseconds.
pub const PATIENCE: Nanos = 500_000;

/// A lock.
pub struct Mutex<T> {
    state: usize,
    lock_ops: Event,
    data: T,
}

impl<T> Mutex<T> {
    pub closed spec fn wf(&self) -> bool {
        self.lock_ops.wf()
    }

    /// The state of the lock as one number.
    pub closed spec fn state(&self) -> usize {
        self.state
    }

    pub open spec fn locked(&self) -> bool {
        self.state() % 2 == 1
    }

    /// How many tasks have waited for too long.
    pub open spec fn starving(&self) -> nat {
        (self.state() / 2) as nat
    }

    /// What is told to those who wait.
    pub closed spec fn ops(&self) -> Event {
        self.lock_ops
    }

    /// What the lock protects.
    pub closed spec fn data(&self) -> T {
        self.data
    }

    /// The list of those who wait for a well-formed lock is well-formed.
    pub proof fn lemma_ops(&self)
        requires
            self.wf(),
        ensures
            self.ops().wf(),
    {
    }

    /// A lock that nobody holds.
    pub fn new(data: T) -> (r: Self)
        ensures
            r.wf(),
            r.state() == 0,
            r.ops().entries().len() == 0,
            r.data() == data,
    {
        Mutex { state: 0, lock_ops: Event::new(0), data }
    }

    pub fn into_inner(self) -> (r: T)
        ensures
            r == self.data(),
    {
        self.data
    }

    /// Gives access to the data to the one who has the lock for themselves.
    pub fn get_mut(&mut self) -> (r: &mut T)
        requires
            old(self).wf(),
        ensures
            *r == old(self).data(),
            final(self).wf(),
            final(self).state() == old(self).state(),
            final(self).ops() == old(self).ops(),
            final(self).data() == *final(r),
    {
        &mut self.data
    }

    /// Takes the lock if nobody holds it and nobody starves.
    pub fn try_lock(&mut self) -> (r: bool)
        requires
            old(self).wf(),
        ensures
            final(self).wf(),
            r == (old(self).state() == 0),
            final(self).state() == (if r {
                1
            } else {
                old(self).state()
            }),
            final(self).ops() == old(self).ops(),
            final(self).data() == old(self).data(),
    {
        if self.state == 0 {
            self.state = 1;
            true
        } else {
            false
        }
    }

    /// Gives the lock back and notifies one of those who wait.
    pub fn unlock(&mut self, woken: &mut Vec<Wake>)
        requires
            old(self).wf(),
            old(self).locked(),
        ensures
            final(self).wf(),
            final(self).state() == old(self).state() - 1,
            final(self).data() == old(self).data(),
            notifies(&old(self).ops(), &final(self).ops(), 1, old(woken)@, final(woken)@),
            !final(self).locked(),
            stirs(&final(self).ops()),
    {
        self.state = self.state - 1;
        self.lock_ops.notify(1, woken);
        proof {
            law_notifies(&old(self).lock_ops, &self.lock_ops, 1, old(woken)@, woken@);
        }
    }

}

/// Begins to acquire a lock.
pub fn lock() -> (r: Acquire)
    ensures
        r.stage() is Quick,
        r.listener() is None,
{
    Acquire { start: 0, stage: AcquireStage::Quick, listener: None }
}

/// How far a task has come.
#[derive(Clone, Copy, Debug, PartialEq, Eq, Structural)]
pub enum AcquireStage {
    /// It is about to see whether the lock is free at once.
    Quick,
    /// It is about to listen to the lock.
    Listen,
    /// It listens, and is about to see whether the lock is free.
    Try,
    /// It waits to be notified.
    Wait,
    /// It was notified, and is about to see whether the lock is free.
    Retry,
    /// It has waited for too long, and is about to say so.
    Starve,
    /// It starves, and is about to listen to the lock.
    ListenStarving,
    /// It starves and listens, and is about to see whether the lock is free.
    TryStarving,
    /// It starves and waits to be notified.
    WaitStarving,
    /// It starves and was notified, and is about to take the lock.
    Grab,
    /// It has the lock.
    Done,
}

impl AcquireStage {
    /// The task is counted among those that starve.
    pub open spec fn starving(self) -> bool {
        ||| self is ListenStarving
        ||| self is TryStarving
        ||| self is WaitStarving
        ||| self is Grab
    }

    pub open spec fn listening(self) -> bool {
        ||| self is Try
        ||| self is Wait
        ||| self is TryStarving
        ||| self is WaitStarving
    }

    /// The task waits to be notified.
    pub open spec fn waiting(self) -> bool {
        self is Wait || self is WaitStarving
    }

    /// The task is on its way: it has more steps to make before it waits or has the lock.
    pub open spec fn busy(self) -> bool {
        !self.waiting() && !(self is Quick) && !(self is Done)
    }
}

/// What came of a step.
#[derive(Clone, Copy, Debug, PartialEq, Eq, Structural)]
pub enum AcquireStep {
    /// There is a next step.
    Again,
    /// The task waits.
    Pending,
    /// The task has the lock.
    Acquired,
    /// So many tasks starve that they cannot be counted.
    Overflow,
}

/// Where a step leads: what came of it, the next stage, and the state of the lock. Here `late` says
/// that the task has waited for too long, and `notified` that it was notified.
pub open spec fn transition(
    stage: AcquireStage,
    state: int,
    late: bool,
    notified: bool,
) -> (AcquireStep, AcquireStage, int) {
    match stage {
        AcquireStage::Quick => if state == 0 {
            (AcquireStep::Acquired, AcquireStage::Done, 1)
        } else {
            (AcquireStep::Again, AcquireStage::Listen, state)
        },
        AcquireStage::Listen => (AcquireStep::Again, AcquireStage::Try, state),
        AcquireStage::Try => if state == 0 {
            (AcquireStep::Acquired, AcquireStage::Done, 1)
        } else if state == 1 {
            (AcquireStep::Again, AcquireStage::Wait, state)
        } else {
            (AcquireStep::Again, AcquireStage::Starve, state)
        },
        AcquireStage::Wait => if notified {
            (AcquireStep::Again, AcquireStage::Retry, state)
        } else {
            (AcquireStep::Pending, AcquireStage::Wait, state)
        },
        AcquireStage::Retry => if state == 0 {
            (AcquireStep::Acquired, AcquireStage::Done, 1)
        } else if state == 1 && !late {
            (AcquireStep::Again, AcquireStage::Listen, state)
        } else {
            (AcquireStep::Again, AcquireStage::Starve, state)
        },
        AcquireStage::Starve => if state > usize::MAX / 2 {
            (AcquireStep::Overflow, AcquireStage::Starve, state)
        } else {
            (AcquireStep::Again, AcquireStage::ListenStarving, state + 2)
        },
        AcquireStage::ListenStarving => (AcquireStep::Again, AcquireStage::TryStarving, state),
        AcquireStage::TryStarving => if state == 2 {
            (AcquireStep::Acquired, AcquireStage::Done, 1)
        } else {
            (AcquireStep::Again, AcquireStage::WaitStarving, state)
        },
        AcquireStage::WaitStarving => if notified {
            (AcquireStep::Again, AcquireStage::Grab, state)
        } else {
            (AcquireStep::Pending, AcquireStage::WaitStarving, state)
        },
        AcquireStage::Grab => if state % 2 == 0 {
            (AcquireStep::Acquired, AcquireStage::Done, state - 1)
        } else {
            (AcquireStep::Again, AcquireStage::ListenStarving, state)
        },
        AcquireStage::Done => (AcquireStep::Acquired, AcquireStage::Done, state),
    }
}

/// Whether `now` is too long after `start`.
pub open spec fn is_late(start: Nanos, now: Nanos) -> bool {
    now - start > PATIENCE
}

/// A task that acquires a lock.
pub struct Acquire {
    start: Nanos,
    stage: AcquireStage,
    listener: Option<EventListener>,
}

impl Acquire {
    /// When the task began to listen.
    pub closed spec fn start(&self) -> Nanos {
        self.start
    }

    pub closed spec fn stage(&self) -> AcquireStage {
        self.stage
    }

    pub closed spec fn listener(&self) -> Option<EventListener> {
        self.listener
    }

    pub open spec fn wf<T>(&self, mutex: &Mutex<T>) -> bool {
        &&& (self.listener() is Some) == self.stage().listening()
        &&& self.listener() matches Some(listener) ==> listener.active(&mutex.ops())
            && !(listener.state(&mutex.ops()) is Waiting)
        &&& self.stage().starving() ==> mutex.starving() > 0
    }

    pub open spec fn notified<T>(&self, mutex: &Mutex<T>) -> bool {
        self.listener() matches Some(listener) && listener.state(&mutex.ops()) is Notified
    }

    /// The task waits, and was not notified.
    pub open spec fn idle<T>(&self, mutex: &Mutex<T>) -> bool {
        self.stage().waiting() && !self.notified(mutex)
    }

    /// What a step does to those who wait.
    pub open spec fn tells(
        &self,
        after: &Acquire,
        state: int,
        ops: &Event,
        ops_after: &Event,
        cx: &Context,
        woken: Seq<Wake>,
        woken_after: Seq<Wake>,
    ) -> bool {
        match self.stage() {
            AcquireStage::Listen | AcquireStage::ListenStarving => {
                &&& listens(ops, ops_after, &after.listener()->0)
                &&& after.listener()->0.state(ops_after) is Created
                &&& woken_after == woken
            },
            AcquireStage::Try => if state == 1 {
                &&& after.listener() == self.listener()
                &&& keeps(ops, ops_after)
                &&& woken_after == woken
            } else {
                drops(&self.listener()->0, ops, ops_after, woken, woken_after)
            },
            AcquireStage::Wait | AcquireStage::WaitStarving => {
                let listener = self.listener()->0;
                &&& woken_after == woken
                &&& if listener.state(ops) is Notified {
                    removes(ops, ops_after, listener.place(ops))
                } else {
                    &&& restates(ops, ops_after, listener.place(ops), State::Polling(cx.waker))
                    &&& after.listener() matches Some(l) && l.entry() == listener.entry()
                        && l.event() == listener.event()
                }
            },
            AcquireStage::Retry => if state > 1 {
                notifies(ops, ops_after, 1, woken, woken_after)
            } else {
                keeps(ops, ops_after) && woken_after == woken
            },
            AcquireStage::TryStarving => if state == 2 {
                drops(&self.listener()->0, ops, ops_after, woken, woken_after)
            } else {
                &&& after.listener() == self.listener()
                &&& if state % 2 == 1 {
                    keeps(ops, ops_after) && woken_after == woken
                } else {
                    notifies(ops, ops_after, 1, woken, woken_after)
                }
            },
            _ => keeps(ops, ops_after) && woken_after == woken,
        }
    }

    /// Makes the next step.
    pub fn step<T>(
        &mut self,
        mutex: &mut Mutex<T>,
        cx: &Context,
        now: Nanos,
        woken: &mut Vec<Wake>,
    ) -> (r: AcquireStep)
        requires
            old(mutex).wf(),
            old(self).wf(old(mutex)),
            !(old(self).stage() is Done),
        ensures
            final(mutex).wf(),
            final(self).wf(final(mutex)),
            final(self).start() == (if old(self).stage() is Quick {
                now
            } else {
                old(self).start()
            }),
            final(mutex).data() == old(mutex).data(),
            transition(
                old(self).stage(),
                old(mutex).state() as int,
                is_late(old(self).start(), now),
                old(self).notified(old(mutex)),
            ) == (r, final(self).stage(), final(mutex).state() as int),
            old(self).tells(
                final(self),
                old(mutex).state() as int,
                &old(mutex).ops(),
                &final(mutex).ops(),
                cx,
                old(woken)@,
                final(woken)@,
            ),
            // The lock is taken only if nobody held it, and is held from then on.
            r is Acquired ==> !old(mutex).locked() && final(mutex).locked(),
            !(r is Acquired) ==> final(mutex).locked() == old(mutex).locked(),
            r is Pending ==> old(self).stage().waiting() && !old(self).notified(old(mutex)),
    {
        match self.stage {
            AcquireStage::Quick => {
                self.start = now;
                if mutex.try_lock() {
                    self.stage = AcquireStage::Done;
                    AcquireStep::Acquired
                } else {
                    self.stage = AcquireStage::Listen;
                    AcquireStep::Again
                }
            },
            AcquireStage::Listen | AcquireStage::ListenStarving => {
                let listener = mutex.lock_ops.listen();
                proof {
                    lemma_listens(&old(mutex).lock_ops, &mutex.lock_ops, &listener);
                }
                self.listener = Some(listener);
                self.stage = match self.stage {
                    AcquireStage::Listen => AcquireStage::Try,
                    _ => AcquireStage::TryStarving,
                };
                AcquireStep::Again
            },
            AcquireStage::Try => {
                if mutex.state == 1 {
                    self.stage = AcquireStage::Wait;
                    return AcquireStep::Again;
                }
                match self.listener.take() {
                    Some(listener) => listener.drop(&mut mutex.lock_ops, woken),
                    None => {},
                }
                if mutex.state == 0 {
                    mutex.state = 1;
                    self.stage = AcquireStage::Done;
                    AcquireStep::Acquired
                } else {
                    self.stage = AcquireStage::Starve;
                    AcquireStep::Again
                }
            },
            AcquireStage::Wait | AcquireStage::WaitStarving => {
                match self.listener.take() {
                    Some(mut listener) => match listener.poll(&mut mutex.lock_ops, cx) {
                        Poll::Ready(_) => {
                            self.stage = match self.stage {
                                AcquireStage::Wait => AcquireStage::Retry,
                                _ => AcquireStage::Grab,
                            };
                            AcquireStep::Again
                        },
                        Poll::Pending => {
                            proof {
                                let l = old(self).listener->0;
                                lemma_restates(
                                    &old(mutex).lock_ops,
                                    &mutex.lock_ops,
                                    l.place(&old(mutex).lock_ops),
                                    State::Polling(cx.waker),
                                    &l,
                                );
                            }
                            self.listener = Some(listener);
                            AcquireStep::Pending
                        },
                    },
                    None => AcquireStep::Pending,
                }
            },
            AcquireStage::Retry => {
                if mutex.state == 0 {
                    mutex.state = 1;
                    self.stage = AcquireStage::Done;
                    return AcquireStep::Acquired;
                }
                if mutex.state != 1 {
                    mutex.lock_ops.notify(1, woken);
                    self.stage = AcquireStage::Starve;
                } else if now > self.start && now - self.start > PATIENCE {
                    self.stage = AcquireStage::Starve;
                } else {
                    self.stage = AcquireStage::Listen;
                }
                AcquireStep::Again
            },
            AcquireStage::Starve => {
                if mutex.state > usize::MAX / 2 {
                    return AcquireStep::Overflow;
                }
                mutex.state = mutex.state + 2;
                self.stage = AcquireStage::ListenStarving;
                AcquireStep::Again
            },
            AcquireStage::TryStarving => {
                if mutex.state == 2 {
                    match self.listener.take() {
                        Some(listener) => listener.drop(&mut mutex.lock_ops, woken),
                        None => {},
                    }
                    mutex.state = 1;
                    self.stage = AcquireStage::Done;
                    return AcquireStep::Acquired;
                }
                if mutex.state % 2 == 0 {
                    mutex.lock_ops.notify(1, woken);
                    proof {
                        let listener = self.listener->0;
                        lemma_notifies(
                            &old(mutex).lock_ops,
                            &mutex.lock_ops,
                            1,
                            old(woken)@,
                            woken@,
                            &listener,
                        );
                    }
                }
                self.stage = AcquireStage::WaitStarving;
                AcquireStep::Again
            },
            AcquireStage::Grab => {
                if mutex.state % 2 == 0 {
                    mutex.state = mutex.state - 1;
                    self.stage = AcquireStage::Done;
                    AcquireStep::Acquired
                } else {
                    self.stage = AcquireStage::ListenStarving;
                    AcquireStep::Again
                }
            },
            AcquireStage::Done => AcquireStep::Acquired,
        }
    }

    /// Gives the lock up before it was acquired.
    pub fn drop<T>(self, mutex: &mut Mutex<T>, woken: &mut Vec<Wake>)
        requires
            old(mutex).wf(),
            self.wf(old(mutex)),
        ensures
            final(mutex).wf(),
            final(mutex).data() == old(mutex).data(),
            final(mutex).state() == old(mutex).state() - (if self.stage().starving() {
                2int
            } else {
                0
            }),
            match self.listener() {
                Some(listener) => drops(
                    &listener,
                    &old(mutex).ops(),
                    &final(mutex).ops(),
                    old(woken)@,
                    final(woken)@,
                ),
                None => final(mutex).ops() == old(mutex).ops() && final(woken)@ == old(woken)@,
            },
    {
        match self.listener {
            Some(listener) => listener.drop(&mut mutex.lock_ops, woken),
            None => {},
        }
        match self.stage {
            AcquireStage::ListenStarving
            | AcquireStage::TryStarving
            | AcquireStage::WaitStarving
            | AcquireStage::Grab => {
                mutex.state = mutex.state - 2;
            },
            _ => {},
        }
    }
}

/// What comes of the next step of a task that acquires a lock.
pub open spec fn acquire_step<T>(acquire: &Acquire, mutex: &Mutex<T>, now: Nanos) -> AcquireStep {
    transition(
        acquire.stage(),
        mutex.state() as int,
        is_late(acquire.start(), now),
        acquire.notified(mutex),
    ).0
}

/// What the next step of a task that acquires a lock leaves behind.
pub open spec fn acquire_steps<T>(
    before: &Acquire,
    after: &Acquire,
    mutex: &Mutex<T>,
    mutex_after: &Mutex<T>,
    cx: &Context,
    now: Nanos,
    woken: Seq<Wake>,
    woken_after: Seq<Wake>,
) -> bool {
    let (_, stage, state) = transition(
        before.stage(),
        mutex.state() as int,
        is_late(before.start(), now),
        before.notified(mutex),
    );
    &&& after.stage() == stage
    &&& after.start() == (if before.stage() is Quick {
        now
    } else {
        before.start()
    })
    &&& mutex_after.state() == state
    &&& before.tells(
        after,
        mutex.state() as int,
        &mutex.ops(),
        &mutex_after.ops(),
        cx,
        woken,
        woken_after,
    )
}

/// Mutual exclusion: a step takes the lock only if it is free, and no step frees it. The tasks that
/// starve are counted throughout.
pub proof fn law_exclusive(stage: AcquireStage, state: int, late: bool, notified: bool)
    requires
        0 <= state <= usize::MAX,
        !(stage is Done),
        stage.starving() ==> state >= 2,
    ensures
        ({
            let (step, next, after) = transition(stage, state, late, notified);
            &&& step is Acquired <==> next is Done
            &&& step is Acquired ==> state % 2 == 0 && after % 2 == 1
            &&& !(step is Acquired) ==> after % 2 == state % 2
            &&& after / 2 - (if next.starving() {
                1int
            } else {
                0
            }) == state / 2 - (if stage.starving() {
                1int
            } else {
                0
            })
        }),
{
}

/// Fairness: as long as a task starves, no task that does not starve takes the lock.
pub proof fn law_starving_first(stage: AcquireStage, state: int, late: bool, notified: bool)
    requires
        0 <= state <= usize::MAX,
        state / 2 > 0,
        !(stage is Done),
        !stage.starving(),
    ensures
        !(transition(stage, state, late, notified).0 is Acquired),
{
}

/// Two tasks may wait side by side: they stand at different places, and are both counted where both
/// starve.
pub open spec fn beside<T>(a: &Acquire, b: &Acquire, mutex: &Mutex<T>) -> bool {
    &&& apart(a.listener(), b.listener())
    &&& a.stage().starving() && b.stage().starving() ==> mutex.starving() >= 2
}

/// A step of one task leaves another that waits beside it as it was, but for a notification.
pub proof fn law_others_wait<T>(
    before: &Acquire,
    after: &Acquire,
    mutex: &Mutex<T>,
    mutex_after: &Mutex<T>,
    cx: &Context,
    now: Nanos,
    woken: Seq<Wake>,
    woken_after: Seq<Wake>,
    other: &Acquire,
)
    requires
        mutex.wf(),
        before.wf(mutex),
        !(before.stage() is Done),
        acquire_steps(before, after, mutex, mutex_after, cx, now, woken, woken_after),
        other.wf(mutex),
        beside(before, other, mutex),
    ensures
        mutex_after.wf(),
        other.wf(mutex_after),
        after.wf(mutex_after) ==> beside(after, other, mutex_after),
        other.listener() matches Some(listener) ==> undisturbed(
            &listener,
            &mutex.ops(),
            &mutex_after.ops(),
        ),
{
    let ops = mutex.ops();
    let ops_after = mutex_after.ops();
    let state = mutex.state();
    ops.lemma_order();
    if other.listener() is Some {
        let l = other.listener()->0;
        assert(ops.entries()[l.place(&ops)].id == l.entry()->0);
        if before.listener() is Some {
            let own = before.listener()->0;
            let at = own.place(&ops);
            assert(ops.entries()[at].id == own.entry()->0);
            match before.stage() {
                AcquireStage::Wait | AcquireStage::WaitStarving => {
                    if own.state(&ops) is Notified {
                        law_others_stay(&ops, &ops_after, at, &l);
                    } else {
                        lemma_restates(&ops, &ops_after, at, State::Polling(cx.waker), &l);
                    }
                },
                _ => {
                    if drops(&own, &ops, &ops_after, woken, woken_after) {
                        law_others_stay_drop(&own, &ops, &ops_after, woken, woken_after, &l);
                    }
                },
            }
        }
        if before.stage() is Listen || before.stage() is ListenStarving {
            law_others_stay_listen(&ops, &ops_after, &after.listener()->0, &l);
        }
        if notifies(&ops, &ops_after, 1, woken, woken_after) {
            law_others_stay_notify(
                &ops,
                &ops_after,
                1,
                woken,
                woken_after,
                &l,
            );
        }
    }
}

/// How many of `marks` are set.
pub open spec fn tally(marks: Seq<bool>) -> nat
    decreases marks.len(),
{
    if marks.len() == 0 {
        0
    } else {
        tally(marks.drop_last()) + (if marks.last() {
            1nat
        } else {
            0
        })
    }
}

/// Setting one mark counts for one.
pub proof fn lemma_tally_update(marks: Seq<bool>, at: int, mark: bool)
    requires
        0 <= at < marks.len(),
    ensures
        tally(marks.update(at, mark)) - (if mark {
            1int
        } else {
            0
        }) == tally(marks) - (if marks[at] {
            1int
        } else {
            0
        }),
    decreases marks.len(),
{
    let updated = marks.update(at, mark);
    if at == marks.len() - 1 {
        assert(updated.drop_last() =~= marks.drop_last());
    } else {
        assert(updated.drop_last() =~= marks.drop_last().update(at, mark));
        lemma_tally_update(marks.drop_last(), at, mark);
    }
}

/// Whatever is marked is counted.
pub proof fn lemma_tally_marked(marks: Seq<bool>, at: int)
    requires
        0 <= at < marks.len(),
        marks[at],
    ensures
        tally(marks) >= 1,
{
    lemma_tally_update(marks, at, false);
}

/// The tasks that acquire or hold a lock, together: each listens at a place of its own, those that
/// starve are counted, and if the lock is held then by one of them.
pub open spec fn crowd<T>(tasks: Seq<Acquire>, mutex: &Mutex<T>) -> bool {
    &&& forall|i: int| 0 <= i < tasks.len() ==> (#[trigger] tasks[i]).wf(mutex)
    &&& forall|i: int, j: int|
        0 <= i < tasks.len() && 0 <= j < tasks.len() && i != j ==> apart(
            (#[trigger] tasks[i]).listener(),
            (#[trigger] tasks[j]).listener(),
        )
    &&& tally(tasks.map_values(|task: Acquire| task.stage().starving())) == mutex.starving()
    &&& tally(tasks.map_values(|task: Acquire| task.stage() is Done)) == (if mutex.locked() {
        1nat
    } else {
        0
    })
}

/// Nobody waits for a lock that is free without somebody to look after them: as long as nobody holds
/// the lock and a task waits that was not notified, another one was notified or is on its way to the
/// lock. And nobody listens but those tasks.
pub open spec fn attended<T>(tasks: Seq<Acquire>, mutex: &Mutex<T>) -> bool {
    &&& mutex.ops().entries().len() == tally(
        tasks.map_values(|task: Acquire| task.listener() is Some),
    )
    &&& !mutex.locked() && (exists|i: int| 0 <= i < tasks.len() && (#[trigger] tasks[i]).idle(mutex))
        ==> {
        ||| mutex.ops().notified() > 0
        ||| exists|j: int| 0 <= j < tasks.len() && (#[trigger] tasks[j]).stage().busy()
    }
}

/// Nobody waits for a new lock.
pub proof fn law_crowd_new<T>(mutex: &Mutex<T>)
    requires
        mutex.state() == 0,
    ensures
        crowd(Seq::empty(), mutex),
        mutex.ops().entries().len() == 0 ==> attended(Seq::empty(), mutex),
{
    let none: Seq<Acquire> = Seq::empty();
    assert(none.map_values(|task: Acquire| task.listener() is Some) =~= Seq::empty());
    assert(none.map_values(|task: Acquire| task.stage().starving()) =~= Seq::empty());
    assert(none.map_values(|task: Acquire| task.stage() is Done) =~= Seq::empty());
}

/// A task may join the others at any time: one that begins to acquire the lock, or one that just
/// took it because nobody held it and nobody starved.
pub proof fn law_crowd_join<T>(
    tasks: Seq<Acquire>,
    task: Acquire,
    mutex: &Mutex<T>,
    mutex_after: &Mutex<T>,
)
    requires
        crowd(tasks, mutex),
        task.listener() is None,
        mutex_after.ops() == mutex.ops(),
        ({
            ||| task.stage() is Quick && mutex_after.state() == mutex.state()
            ||| task.stage() is Done && mutex.state() == 0 && mutex_after.state() == 1
        }),
    ensures
        crowd(tasks.push(task), mutex_after),
        attended(tasks, mutex) ==> attended(tasks.push(task), mutex_after),
{
    let starving = |task: Acquire| task.stage().starving();
    let done = |task: Acquire| task.stage() is Done;
    let hears = |task: Acquire| task.listener() is Some;
    let next = tasks.push(task);
    assert(next.map_values(hears).drop_last() =~= tasks.map_values(hears));
    if attended(tasks, mutex) && !mutex_after.locked() {
        assert forall|i: int| 0 <= i < next.len() && (#[trigger] next[i]).idle(mutex_after) implies
            mutex_after.ops().notified() > 0 || exists|j: int|
            0 <= j < next.len() && (#[trigger] next[j]).stage().busy() by {
            assert(next[i] == tasks[i]);
            assert(tasks[i].idle(mutex));
            if mutex.ops().notified() == 0 {
                let j = choose|j: int| 0 <= j < tasks.len() && (#[trigger] tasks[j]).stage().busy();
                assert(next[j] == tasks[j]);
            }
        }
    }
    assert(next.map_values(starving).drop_last() =~= tasks.map_values(starving));
    assert(next.map_values(done).drop_last() =~= tasks.map_values(done));
    assert forall|i: int| 0 <= i < next.len() implies (#[trigger] next[i]).wf(mutex_after) by {
        if i < tasks.len() {
            assert(next[i] == tasks[i]);
        }
    }
    assert forall|i: int, j: int|
        0 <= i < next.len() && 0 <= j < next.len() && i != j implies apart(
        (#[trigger] next[i]).listener(),
        (#[trigger] next[j]).listener(),
    ) by {
        if i < tasks.len() && j < tasks.len() {
            assert(apart(tasks[i].listener(), tasks[j].listener()));
        }
    }
}

/// Whatever step a task makes, all tasks stay well-formed, those that starve are counted, and no two
/// of them hold the lock.
pub proof fn law_crowd<T>(
    tasks: Seq<Acquire>,
    at: int,
    after: Acquire,
    mutex: &Mutex<T>,
    mutex_after: &Mutex<T>,
    cx: &Context,
    now: Nanos,
    woken: Seq<Wake>,
    woken_after: Seq<Wake>,
)
    requires
        mutex.wf(),
        crowd(tasks, mutex),
        0 <= at < tasks.len(),
        !(tasks[at].stage() is Done),
        acquire_steps(&tasks[at], &after, mutex, mutex_after, cx, now, woken, woken_after),
        after.wf(mutex_after),
    ensures
        crowd(tasks.update(at, after), mutex_after),
        attended(tasks, mutex) ==> attended(tasks.update(at, after), mutex_after),
{
    let starving = |task: Acquire| task.stage().starving();
    let done = |task: Acquire| task.stage() is Done;
    let marks = tasks.map_values(starving);
    let held = tasks.map_values(done);
    let next = tasks.update(at, after);
    let before = tasks[at];
    assert(next.map_values(starving) =~= marks.update(at, starving(after)));
    assert(next.map_values(done) =~= held.update(at, done(after)));
    lemma_tally_update(marks, at, starving(after));
    lemma_tally_update(held, at, done(after));
    law_exclusive(
        before.stage(),
        mutex.state() as int,
        is_late(before.start(), now),
        before.notified(mutex),
    );
    assert forall|j: int| 0 <= j < tasks.len() && j != at implies (#[trigger] tasks[j]).wf(
        mutex_after,
    ) && beside(&after, &tasks[j], mutex_after) by {
        if starving(before) && starving(tasks[j]) {
            lemma_tally_update(marks, at, false);
            lemma_tally_marked(marks.update(at, false), j);
        }
        assert(apart(tasks[at].listener(), tasks[j].listener()));
        law_others_wait(
            &before,
            &after,
            mutex,
            mutex_after,
            cx,
            now,
            woken,
            woken_after,
            &tasks[j],
        );
    }
    assert forall|i: int, j: int|
        0 <= i < next.len() && 0 <= j < next.len() && i != j implies apart(
        (#[trigger] next[i]).listener(),
        (#[trigger] next[j]).listener(),
    ) by {
        assert(i != at ==> next[i] == tasks[i]);
        assert(j != at ==> next[j] == tasks[j]);
        if i == at {
            assert(beside(&after, &tasks[j], mutex_after));
        } else if j == at {
            assert(beside(&after, &tasks[i], mutex_after));
        } else {
            assert(apart(tasks[i].listener(), tasks[j].listener()));
        }
    }
    assert forall|i: int| 0 <= i < next.len() implies (#[trigger] next[i]).wf(mutex_after) by {
        assert(i != at ==> next[i] == tasks[i]);
    }
    if attended(tasks, mutex) {
        lemma_attended(
            tasks,
            at,
            after,
            mutex,
            mutex_after,
            cx,
            now,
            woken,
            woken_after,
        );
    }
}

/// What a step does to how many listen and how many of them are notified: as long as the lock is
/// free, a notification is lost only to the task itself, which then is on its way.
pub proof fn lemma_step_counts<T>(
    before: &Acquire,
    after: &Acquire,
    mutex: &Mutex<T>,
    mutex_after: &Mutex<T>,
    cx: &Context,
    now: Nanos,
    woken: Seq<Wake>,
    woken_after: Seq<Wake>,
)
    requires
        mutex.wf(),
        before.wf(mutex),
        !(before.stage() is Done),
        acquire_steps(before, after, mutex, mutex_after, cx, now, woken, woken_after),
        after.wf(mutex_after),
    ensures
        mutex_after.ops().entries().len() == mutex.ops().entries().len() + (
        if after.listener() is Some {
            1int
        } else {
            0
        }) - (if before.listener() is Some {
            1int
        } else {
            0
        }),
        !mutex_after.locked() ==> after.stage().busy() || mutex_after.ops().notified() > 0
            || before.idle(mutex) && after.idle(mutex_after) && mutex_after.ops().notified()
            == mutex.ops().notified() || before.stage() is Quick,
        !mutex_after.locked() && mutex.ops().notified() > 0 ==> after.stage().busy()
            || mutex_after.ops().notified() > 0,
        before.stage() is Quick && !mutex_after.locked() ==> after.stage().busy(),
{
    let ops = mutex.ops();
    let ops_after = mutex_after.ops();
    ops.lemma_order();
    law_exclusive(
        before.stage(),
        mutex.state() as int,
        is_late(before.start(), now),
        before.notified(mutex),
    );
    if before.listener() is Some {
        let own = before.listener()->0;
        let at = own.place(&ops);
        assert(ops.entries()[at].id == own.entry()->0);
        if before.stage().waiting() {
            if !(own.state(&ops) is Notified) {
                lemma_restates(&ops, &ops_after, at, State::Polling(cx.waker), &own);
                assert(after.listener()->0.entry() == own.entry());
            }
        } else if drops(&own, &ops, &ops_after, woken, woken_after) {
            law_drop_counts(&own, &ops, &ops_after, woken, woken_after);
        }
    }
    if notifies(&ops, &ops_after, 1, woken, woken_after) {
        law_notifies(&ops, &ops_after, 1, woken, woken_after);
    }
}

/// Whatever step a task makes, nobody who waits is forgotten.
#[verifier::spinoff_prover]
#[verifier::rlimit(50)]
proof fn lemma_attended<T>(
    tasks: Seq<Acquire>,
    at: int,
    after: Acquire,
    mutex: &Mutex<T>,
    mutex_after: &Mutex<T>,
    cx: &Context,
    now: Nanos,
    woken: Seq<Wake>,
    woken_after: Seq<Wake>,
)
    requires
        mutex.wf(),
        crowd(tasks, mutex),
        attended(tasks, mutex),
        0 <= at < tasks.len(),
        !(tasks[at].stage() is Done),
        acquire_steps(&tasks[at], &after, mutex, mutex_after, cx, now, woken, woken_after),
        after.wf(mutex_after),
    ensures
        attended(tasks.update(at, after), mutex_after),
{
    let hears = |task: Acquire| task.listener() is Some;
    let next = tasks.update(at, after);
    let before = tasks[at];
    let heard = tasks.map_values(hears);
    assert(before.wf(mutex));
    assert(next.map_values(hears) =~= heard.update(at, hears(after)));
    lemma_tally_update(heard, at, hears(after));
    lemma_step_counts(&before, &after, mutex, mutex_after, cx, now, woken, woken_after);
    law_exclusive(
        before.stage(),
        mutex.state() as int,
        is_late(before.start(), now),
        before.notified(mutex),
    );
    assert(next[at] == after);
    if !mutex_after.locked() && mutex_after.ops().notified() == 0 && !after.stage().busy() {
        assert forall|i: int| 0 <= i < next.len() && (#[trigger] next[i]).idle(mutex_after) implies
            exists|j: int| 0 <= j < next.len() && (#[trigger] next[j]).stage().busy() by {
            assert(before.idle(mutex));
            assert(tasks[at].idle(mutex));
            let j = choose|j: int| 0 <= j < tasks.len() && (#[trigger] tasks[j]).stage().busy();
            assert(j != at);
            assert(next[j] == tasks[j]);
        }
    }
}

/// A task that gives the lock back leaves the others as they were, but for a notification, and so
/// the lock to one of them.
pub proof fn law_crowd_unlock<T>(
    tasks: Seq<Acquire>,
    at: int,
    mutex: &Mutex<T>,
    mutex_after: &Mutex<T>,
    woken: Seq<Wake>,
    woken_after: Seq<Wake>,
)
    requires
        mutex.wf(),
        crowd(tasks, mutex),
        0 <= at < tasks.len(),
        tasks[at].stage() is Done,
        mutex_after.state() == mutex.state() - 1,
        notifies(&mutex.ops(), &mutex_after.ops(), 1, woken, woken_after),
    ensures
        mutex.locked(),
        crowd(tasks.remove(at), mutex_after),
        attended(tasks, mutex) ==> attended(tasks.remove(at), mutex_after),
{
    law_notifies(&mutex.ops(), &mutex_after.ops(), 1, woken, woken_after);
    if attended(tasks, mutex) {
        let hears = |task: Acquire| task.listener() is Some;
        let heard = tasks.map_values(hears);
        assert(tasks.remove(at).map_values(hears) =~= heard.remove(at));
        assert(tasks[at].wf(mutex));
        lemma_tally_remove(heard, at);
        let next = tasks.remove(at);
        assert forall|i: int| 0 <= i < next.len() && (#[trigger] next[i]).idle(mutex_after) implies
            mutex_after.ops().notified() > 0 by {
            let k = if i < at {
                i
            } else {
                i + 1
            };
            assert(next[i] == tasks[k]);
            assert(tasks[k].wf(mutex));
            assert(heard[k]);
            lemma_tally_marked(heard, k);
        }
    }
    let starving = |task: Acquire| task.stage().starving();
    let done = |task: Acquire| task.stage() is Done;
    let next = tasks.remove(at);
    assert(next.map_values(starving) =~= tasks.map_values(starving).remove(at));
    assert(next.map_values(done) =~= tasks.map_values(done).remove(at));
    lemma_tally_remove(tasks.map_values(starving), at);
    lemma_tally_remove(tasks.map_values(done), at);
    let ops = mutex.ops();
    ops.lemma_order();
    assert forall|j: int| 0 <= j < tasks.len() implies (#[trigger] tasks[j]).wf(mutex_after) by {
        if tasks[j].listener() is Some {
            law_others_stay_notify(
                &ops,
                &mutex_after.ops(),
                1,
                woken,
                woken_after,
                &(tasks[j].listener()->0),
            );
        }
    }
    lemma_rest_apart(tasks, at);
    assert forall|i: int| 0 <= i < next.len() implies (#[trigger] next[i]).wf(mutex_after) by {
        assert(next[i] == tasks[if i < at {
            i
        } else {
            i + 1
        }]);
    }
}

/// A task that gives up leaves the others as they were, but for a notification that it passes on.
pub proof fn law_crowd_drop<T>(
    tasks: Seq<Acquire>,
    at: int,
    mutex: &Mutex<T>,
    mutex_after: &Mutex<T>,
    woken: Seq<Wake>,
    woken_after: Seq<Wake>,
)
    requires
        mutex.wf(),
        crowd(tasks, mutex),
        0 <= at < tasks.len(),
        !(tasks[at].stage() is Done),
        mutex_after.state() == mutex.state() - (if tasks[at].stage().starving() {
            2int
        } else {
            0
        }),
        match tasks[at].listener() {
            Some(listener) => drops(
                &listener,
                &mutex.ops(),
                &mutex_after.ops(),
                woken,
                woken_after,
            ),
            None => mutex_after.ops() == mutex.ops() && woken_after == woken,
        },
    ensures
        crowd(tasks.remove(at), mutex_after),
        attended(tasks, mutex) && !tasks[at].stage().busy() ==> attended(
            tasks.remove(at),
            mutex_after,
        ),
{
    if attended(tasks, mutex) && !tasks[at].stage().busy() {
        lemma_attended_drop(tasks, at, mutex, mutex_after, woken, woken_after);
    }
    let starving = |task: Acquire| task.stage().starving();
    let done = |task: Acquire| task.stage() is Done;
    let marks = tasks.map_values(starving);
    let next = tasks.remove(at);
    assert(next.map_values(starving) =~= marks.remove(at));
    assert(next.map_values(done) =~= tasks.map_values(done).remove(at));
    lemma_tally_remove(marks, at);
    lemma_tally_remove(tasks.map_values(done), at);
    assert forall|j: int| 0 <= j < tasks.len() && j != at implies (#[trigger] tasks[j]).wf(
        mutex_after,
    ) by {
        assert(apart(tasks[at].listener(), tasks[j].listener()));
        assert(tasks[at].wf(mutex));
        if starving(tasks[j]) {
            lemma_tally_update(marks, at, false);
            lemma_tally_marked(marks.update(at, false), j);
        }
        if tasks[j].listener() is Some && tasks[at].listener() is Some {
            law_others_stay_drop(
                &(tasks[at].listener()->0),
                &mutex.ops(),
                &mutex_after.ops(),
                woken,
                woken_after,
                &(tasks[j].listener()->0),
            );
        }
    }
    lemma_rest_apart(tasks, at);
    assert forall|i: int| 0 <= i < next.len() implies (#[trigger] next[i]).wf(mutex_after) by {
        assert(next[i] == tasks[if i < at {
            i
        } else {
            i + 1
        }]);
    }
}

/// A task that gives up while it waits leaves nobody forgotten.
proof fn lemma_attended_drop<T>(
    tasks: Seq<Acquire>,
    at: int,
    mutex: &Mutex<T>,
    mutex_after: &Mutex<T>,
    woken: Seq<Wake>,
    woken_after: Seq<Wake>,
)
    requires
        mutex.wf(),
        crowd(tasks, mutex),
        attended(tasks, mutex),
        0 <= at < tasks.len(),
        !(tasks[at].stage() is Done),
        !tasks[at].stage().busy(),
        mutex_after.state() == mutex.state() - (if tasks[at].stage().starving() {
            2int
        } else {
            0
        }),
        match tasks[at].listener() {
            Some(listener) => drops(
                &listener,
                &mutex.ops(),
                &mutex_after.ops(),
                woken,
                woken_after,
            ),
            None => mutex_after.ops() == mutex.ops() && woken_after == woken,
        },
    ensures
        attended(tasks.remove(at), mutex_after),
{
    let hears = |task: Acquire| task.listener() is Some;
    let heard = tasks.map_values(hears);
    let next = tasks.remove(at);
    let gone = tasks[at];
    assert(gone.wf(mutex));
    assert(next.map_values(hears) =~= heard.remove(at));
    lemma_tally_remove(heard, at);
    if gone.listener() is Some {
        law_drop_counts(&(gone.listener()->0), &mutex.ops(), &mutex_after.ops(), woken, woken_after);
    }
    if !mutex_after.locked() && mutex_after.ops().notified() == 0 {
        assert forall|i: int| 0 <= i < next.len() && (#[trigger] next[i]).idle(mutex_after) implies
            exists|j: int| 0 <= j < next.len() && (#[trigger] next[j]).stage().busy() by {
            let k = if i < at {
                i
            } else {
                i + 1
            };
            assert(next[i] == tasks[k]);
            assert(tasks[k].wf(mutex));
            assert(apart(tasks[at].listener(), tasks[k].listener()));
            // Somebody still listens, so that the notification of the one who left is not lost.
            assert(heard.remove(at)[i]);
            lemma_tally_marked(heard.remove(at), i);
            if gone.listener() is Some {
                law_others_stay_drop(
                    &(gone.listener()->0),
                    &mutex.ops(),
                    &mutex_after.ops(),
                    woken,
                    woken_after,
                    &(tasks[k].listener()->0),
                );
            }
            assert(tasks[k].idle(mutex));
            let j = choose|j: int| 0 <= j < tasks.len() && (#[trigger] tasks[j]).stage().busy();
            assert(j != at);
            assert(next[if j < at {
                j
            } else {
                j - 1
            }] == tasks[j]);
        }
    }
}

/// A mark that is taken out is no longer counted.
pub proof fn lemma_tally_remove(marks: Seq<bool>, at: int)
    requires
        0 <= at < marks.len(),
    ensures
        tally(marks.remove(at)) == tally(marks) - (if marks[at] {
            1int
        } else {
            0
        }),
    decreases marks.len(),
{
    let rest = marks.remove(at);
    if at == marks.len() - 1 {
        assert(rest =~= marks.drop_last());
    } else {
        assert(rest.drop_last() =~= marks.drop_last().remove(at));
        lemma_tally_remove(marks.drop_last(), at);
    }
}

/// Where one task leaves, the others still stand apart.
proof fn lemma_rest_apart(tasks: Seq<Acquire>, at: int)
    requires
        0 <= at < tasks.len(),
        forall|i: int, j: int|
            0 <= i < tasks.len() && 0 <= j < tasks.len() && i != j ==> apart(
                (#[trigger] tasks[i]).listener(),
                (#[trigger] tasks[j]).listener(),
            ),
    ensures
        forall|i: int, j: int|
            0 <= i < tasks.len() - 1 && 0 <= j < tasks.len() - 1 && i != j ==> apart(
                (#[trigger] tasks.remove(at)[i]).listener(),
                (#[trigger] tasks.remove(at)[j]).listener(),
            ),
{
    let next = tasks.remove(at);
    assert forall|i: int, j: int|
        0 <= i < next.len() && 0 <= j < next.len() && i != j implies apart(
        (#[trigger] next[i]).listener(),
        (#[trigger] next[j]).listener(),
    ) by {
        let p = if i < at {
            i
        } else {
            i + 1
        };
        let q = if j < at {
            j
        } else {
            j + 1
        };
        assert(next[i] == tasks[p]);
        assert(next[j] == tasks[q]);
        assert(apart(tasks[p].listener(), tasks[q].listener()));
    }
}

/// Whoever looks at a lock that is free and for which nobody starves takes it, and whoever starves and
/// is notified takes it if it is free. One waits only after having listened and found the lock held or
/// somebody else starving, and no longer than until one is notified.
pub proof fn law_proceeds(stage: AcquireStage, state: int, late: bool, notified: bool)
    requires
        0 <= state <= usize::MAX,
        !(stage is Done),
        stage.starving() ==> state >= 2,
    ensures
        ({
            let (step, next, after) = transition(stage, state, late, notified);
            &&& state == 0 && (stage is Quick || stage is Try || stage is Retry) ==> step is Acquired
            &&& state == 2 && stage is TryStarving ==> step is Acquired
            &&& state % 2 == 0 && stage is Grab ==> step is Acquired
            &&& step is Pending <==> stage.waiting() && !notified
            &&& stage.waiting() && notified ==> !next.waiting()
            &&& stage.waiting() && !notified ==> next.waiting() && after == state
            &&& next.waiting() && !stage.waiting() ==> stage.listening() && state > 0
            &&& next is Wait && !stage.waiting() ==> state % 2 == 1
        }),
{
}

/// One starves only after having waited for too long or because somebody else starves already, and
/// then until one has the lock.
pub proof fn law_starves(stage: AcquireStage, state: int, late: bool, notified: bool)
    requires
        0 <= state <= usize::MAX,
        !(stage is Done),
        stage.starving() ==> state >= 2,
    ensures
        ({
            let (step, next, after) = transition(stage, state, late, notified);
            &&& stage is Retry && late && state > 0 ==> next is Starve
            &&& stage is Retry && state > 1 ==> next is Starve
            &&& next is Starve && !(stage is Starve) ==> state > 1 || state == 1 && late
            &&& next.starving() && !stage.starving() ==> stage is Starve && after == state + 2
            &&& stage.starving() ==> next.starving() || next is Done
        }),
{
}

/// The task has waited for too long after half a millisecond, counted from before it listened for the
/// first time.
pub proof fn law_waited<T>(
    before: &Acquire,
    after: &Acquire,
    mutex: &Mutex<T>,
    mutex_after: &Mutex<T>,
    cx: &Context,
    now: Nanos,
    woken: Seq<Wake>,
    woken_after: Seq<Wake>,
)
    requires
        after.wf(mutex_after),
        acquire_steps(before, after, mutex, mutex_after, cx, now, woken, woken_after),
    ensures
        is_late(before.start(), now) <==> now > before.start() + 500_000,
        before.stage() is Quick ==> after.start() == now,
        !(before.stage() is Quick) ==> after.start() == before.start(),
        before.stage() is Listen || before.stage() is ListenStarving ==> (
        after.listener() matches Some(listener) && listens(
            &mutex.ops(),
            &mutex_after.ops(),
            &listener,
        )),
{
}

/// A task that waits is the one that is woken up when it is notified.
pub proof fn law_woken_when_told<T>(
    before: &Acquire,
    after: &Acquire,
    mutex: &Mutex<T>,
    mutex_after: &Mutex<T>,
    cx: &Context,
    now: Nanos,
    woken: Seq<Wake>,
    woken_after: Seq<Wake>,
)
    requires
        mutex.wf(),
        mutex_after.wf(),
        before.wf(mutex),
        after.wf(mutex_after),
        acquire_steps(before, after, mutex, mutex_after, cx, now, woken, woken_after),
        before.stage().waiting(),
        !before.notified(mutex),
    ensures
        after.listener() matches Some(listener) && listener.state(&mutex_after.ops())
            == State::Polling(cx.waker),
{
    let l = before.listener()->0;
    mutex.lemma_ops();
    lemma_restates(&mutex.ops(), &mutex_after.ops(), l.place(&mutex.ops()), State::Polling(cx.waker), &l);
}

} // verus!
