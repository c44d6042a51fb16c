//! A point that a number of tasks pass together.

use vstd::prelude::*;
use crate::platform::event::listener::{
    drops, law_notifies, law_others_stay, law_others_stay_listen, law_others_stay_notify,
    lemma_listens, lemma_restates, listens, notifies, removes, restates, stirs, Event,
    EventListener, State,
};
use crate::platform::lock::mutex::{
    acquire_step, acquire_steps, beside, law_others_wait, lock, Acquire, AcquireStep, Mutex,
};
use crate::task::{Context, Nanos, Poll, Wake};

verus! {

/// What a task is told that has passed a barrier.
#[derive(Clone, Copy, Debug)]
pub struct BarrierWaitResult {
    is_leader: bool,
}

impl BarrierWaitResult {
    pub closed spec fn leader(&self) -> bool {
        self.is_leader
    }

    /// Whether the task is the one that came last.
    pub fn is_leader(&self) -> (r: bool)
        ensures
            r == self.leader(),
    {
        self.is_leader
    }
}

/// How many tasks wait at the barrier, and how often it was passed.
pub struct Generation {
    pub count: usize,
    pub generation_id: u64,
}

/// A barrier.
pub struct Barrier {
    n: usize,
    state: Mutex<Generation>,
    event: Event,
}

impl Barrier {
    pub closed spec fn wf(&self) -> bool {
        &&& self.state.wf()
        &&& self.event.wf()
        &&& self.state.data().count < self.n || self.n == 0 && self.state.data().count == 0
    }

    /// How many tasks the barrier waits for.
    pub closed spec fn size(&self) -> usize {
        self.n
    }

    /// How many tasks wait.
    pub closed spec fn waiting(&self) -> usize {
        self.state.data().count
    }

    /// How often the barrier was passed, as far as the counter goes.
    pub closed spec fn generation(&self) -> u64 {
        self.state.data().generation_id
    }

    /// The lock on the two counts.
    pub closed spec fn mutex(&self) -> Mutex<Generation> {
        self.state
    }

    /// What is told to those who wait.
    pub closed spec fn event(&self) -> Event {
        self.event
    }

    /// A barrier for `n` tasks.
    pub fn new(n: usize) -> (r: Self)
        ensures
            r.wf(),
            r.size() == n,
            r.waiting() == 0,
            r.generation() == 0,
            r.mutex().state() == 0,
            r.mutex().ops().entries().len() == 0,
            r.event().entries().len() == 0,
    {
        Barrier {
            n,
            state: Mutex::new(Generation { count: 0, generation_id: 0 }),
            event: Event::new(0),
        }
    }

    /// A task that holds the lock arrives. Says that it is the leader, or which generation it is to
    /// wait for.
    fn arrive(&mut self, woken: &mut Vec<Wake>) -> (r: Option<u64>)
        requires
            old(self).wf(),
        ensures
            final(self).wf(),
            final(self).size() == old(self).size(),
            final(self).mutex().state() == old(self).mutex().state(),
            final(self).mutex().ops() == old(self).mutex().ops(),
            r == (if old(self).waiting() + 1 < old(self).size() {
                Some(old(self).generation())
            } else {
                None
            }),
            r is Some ==> {
                &&& final(self).waiting() == old(self).waiting() + 1
                &&& final(self).generation() == old(self).generation()
                &&& final(self).event() == old(self).event()
                &&& final(woken)@ == old(woken)@
            },
            r is None ==> {
                &&& final(self).waiting() == 0
                &&& final(self).generation() == old(self).generation().wrapping_add(1)
                &&& notifies(
                    &old(self).event(),
                    &final(self).event(),
                    usize::MAX as int,
                    old(woken)@,
                    final(woken)@,
                )
            },
    {
        let n = self.n;
        let state = self.state.get_mut();
        let local_gen = state.generation_id;
        if state.count + 1 < n {
            state.count = state.count + 1;
            Some(local_gen)
        } else {
            state.count = 0;
            state.generation_id = local_gen.wrapping_add(1);
            self.event.notify(usize::MAX, woken);
            None
        }
    }

    /// Begins to wait at the barrier.
    pub fn wait() -> (r: BarrierWait)
        ensures
            r.entering(),
            r.stage() matches BarrierStage::Entering(acquire) && acquire.stage() is Quick
                && acquire.listener() is None,
            forall|barrier: &Barrier| barrier.wf() ==> #[trigger] r.wf(barrier),
    {
        BarrierWait { stage: BarrierStage::Entering(lock()) }
    }
}

/// How far a task has come.
pub enum BarrierStage {
    /// The task waits for the lock for the first time.
    Entering(Acquire),
    /// It waits for the generation to pass.
    Waiting(EventListener, u64),
    /// It waits for the lock to see whether the generation has passed.
    Returning(Acquire, u64),
    Done,
}

/// What came of a step.
pub enum BarrierStep {
    /// There is a next step.
    Again,
    /// The task waits.
    Pending,
    /// The task has passed the barrier.
    Passed(BarrierWaitResult),
    /// So many tasks wait for the lock that they cannot be counted.
    Overflow,
}

/// A task at a barrier.
pub struct BarrierWait {
    stage: BarrierStage,
}

impl BarrierWait {
    pub closed spec fn stage(&self) -> BarrierStage {
        self.stage
    }

    /// The task is on its way to the barrier.
    pub open spec fn entering(&self) -> bool {
        self.stage() is Entering
    }

    pub open spec fn done(&self) -> bool {
        self.stage() is Done
    }

    /// How the task acquires the lock, if it does.
    pub open spec fn seeks_lock(&self) -> Option<Acquire> {
        match self.stage() {
            BarrierStage::Entering(acquire) => Some(acquire),
            BarrierStage::Returning(acquire, _) => Some(acquire),
            _ => None,
        }
    }

    pub open spec fn wf(&self, barrier: &Barrier) -> bool {
        match self.stage() {
            BarrierStage::Entering(acquire) => acquire.wf(&barrier.mutex()) && !(acquire.stage()
                is Done),
            BarrierStage::Returning(acquire, _) => acquire.wf(&barrier.mutex())
                && !(acquire.stage() is Done) && barrier.size() > 1,
            BarrierStage::Waiting(listener, _) => listener.active(&barrier.event())
                && !(listener.state(&barrier.event()) is Waiting) && barrier.size() > 1,
            BarrierStage::Done => true,
        }
    }

    /// The task asked for its notification.
    pub open spec fn asked(
        &self,
        before: &Barrier,
        after: &Barrier,
        next: &BarrierWait,
        cx: &Context,
        r: BarrierStep,
    ) -> bool {
        let listener = self.stage()->Waiting_0;
        let local_gen = self.stage()->Waiting_1;
        &&& after.waiting() == before.waiting()
        &&& after.generation() == before.generation()
        &&& after.mutex() == before.mutex()
        &&& if listener.state(&before.event()) is Notified {
            &&& r is Again
            &&& next.stage() matches BarrierStage::Returning(acquire, gen) && gen == local_gen
                && acquire.stage() is Quick && acquire.listener() is None
            &&& removes(&before.event(), &after.event(), listener.place(&before.event()))
        } else {
            &&& r is Pending
            &&& next.stage() matches BarrierStage::Waiting(l, gen) && gen == local_gen && l.entry()
                == listener.entry() && l.event() == listener.event()
            &&& restates(
                &before.event(),
                &after.event(),
                listener.place(&before.event()),
                State::Polling(cx.waker),
            )
        }
    }

    /// The task made a step towards the lock, but does not have it yet.
    pub open spec fn approached(
        &self,
        before: &Barrier,
        after: &Barrier,
        next: &BarrierWait,
        acquire: Acquire,
        cx: &Context,
        now: Nanos,
        woken: Seq<Wake>,
        woken_after: Seq<Wake>,
        r: BarrierStep,
    ) -> bool {
        &&& after.waiting() == before.waiting()
        &&& after.generation() == before.generation()
        &&& after.event() == before.event()
        &&& match acquire_step(&acquire, &before.mutex(), now) {
            AcquireStep::Again => r is Again,
            AcquireStep::Pending => r is Pending,
            _ => r is Overflow,
        }
        &&& exists|acquire_after: Acquire|
            {
                &&& #[trigger] acquire_steps(
                    &acquire,
                    &acquire_after,
                    &before.mutex(),
                    &after.mutex(),
                    cx,
                    now,
                    woken,
                    woken_after,
                )
                &&& next.stage() == (match self.stage() {
                    BarrierStage::Returning(_, local_gen) => BarrierStage::Returning(
                        acquire_after,
                        local_gen,
                    ),
                    _ => BarrierStage::Entering(acquire_after),
                })
            }
    }

    /// The task has begun to wait for the generation `local_gen` to pass.
    pub open spec fn listens_for(&self, local_gen: u64, before: &Barrier, after: &Barrier) -> bool {
        &&& self.stage() matches BarrierStage::Waiting(l, gen) && gen == local_gen && listens(
            &before.event(),
            &after.event(),
            &l,
        )
        &&& after.generation() == before.generation()
    }

    /// The task got the lock, which was `held` then, counted itself or looked whether its
    /// generation has passed, and gave the lock back. After the first and the second of these those
    /// in `got` and `told` were woken up.
    pub open spec fn had_lock(
        &self,
        before: &Barrier,
        after: &Barrier,
        next: &BarrierWait,
        acquire: Acquire,
        acquired: Acquire,
        held: Mutex<Generation>,
        cx: &Context,
        now: Nanos,
        woken: Seq<Wake>,
        got: Seq<Wake>,
        told: Seq<Wake>,
        woken_after: Seq<Wake>,
        r: BarrierStep,
    ) -> bool {
        &&& acquire_steps(
            &acquire,
            &acquired,
            &before.mutex(),
            &held,
            cx,
            now,
            woken,
            got,
        )
        &&& after.mutex().state() == held.state() - 1
        &&& notifies(&held.ops(), &after.mutex().ops(), 1, told, woken_after)
        &&& match self.stage() {
            BarrierStage::Returning(_, local_gen) => {
                &&& after.waiting() == before.waiting()
                &&& if local_gen == before.generation() {
                    &&& next.listens_for(local_gen, before, after)
                    &&& r is Again
                    &&& told == got
                } else {
                    // Its generation has passed.
                    &&& r matches BarrierStep::Passed(result) && !result.leader()
                    &&& next.done()
                    &&& after.generation() == before.generation()
                    &&& after.event() == before.event()
                    &&& told == got
                }
            },
            _ => if before.waiting() + 1 < before.size() {
                &&& after.waiting() == before.waiting() + 1
                &&& next.listens_for(before.generation(), before, after)
                &&& r is Again
                &&& told == got
            } else {
                // The task is the last one to come.
                &&& r matches BarrierStep::Passed(result) && result.leader()
                &&& next.done()
                &&& after.waiting() == 0
                &&& after.generation() == before.generation().wrapping_add(1)
                &&& notifies(
                    &before.event(),
                    &after.event(),
                    usize::MAX as int,
                    got,
                    told,
                )
            },
        }
    }

    /// What a step leaves behind.
    pub open spec fn steps(
        &self,
        before: &Barrier,
        after: &Barrier,
        next: &BarrierWait,
        cx: &Context,
        now: Nanos,
        woken: Seq<Wake>,
        woken_after: Seq<Wake>,
        r: BarrierStep,
    ) -> bool {
        match self.seeks_lock() {
            Some(acquire) => {
                if acquire_step(&acquire, &before.mutex(), now) is Acquired {
                    exists|
                        acquired: Acquire,
                        held: Mutex<Generation>,
                        got: Seq<Wake>,
                        told: Seq<Wake>,
                    | #[trigger]
                        self.had_lock(
                            before,
                            after,
                            next,
                            acquire,
                            acquired,
                            held,
                            cx,
                            now,
                            woken,
                            got,
                            told,
                            woken_after,
                            r,
                        )
                } else {
                    self.approached(
                        before,
                        after,
                        next,
                        acquire,
                        cx,
                        now,
                        woken,
                        woken_after,
                        r,
                    )
                }
            },
            None => {
                &&& self.asked(before, after, next, cx, r)
                &&& woken_after == woken
            },
        }
    }

    /// Makes the next step.
    #[verifier::spinoff_prover]
    #[verifier::rlimit(100)]
    pub fn step(
        &mut self,
        barrier: &mut Barrier,
        cx: &Context,
        now: Nanos,
        woken: &mut Vec<Wake>,
    ) -> (r: BarrierStep)
        requires
            old(barrier).wf(),
            old(self).wf(old(barrier)),
            !old(self).done(),
        ensures
            final(barrier).wf(),
            final(self).wf(final(barrier)),
            final(barrier).size() == old(barrier).size(),
            old(self).steps(
                old(barrier),
                final(barrier),
                final(self),
                cx,
                now,
                old(woken)@,
                final(woken)@,
                r,
            ),
    {
        let ghost before = *barrier;
        let ghost at_first = *self;
        let ghost w0 = woken@;
        let mut stage = BarrierStage::Done;
        core::mem::swap(&mut stage, &mut self.stage);
        match stage {
            BarrierStage::Entering(mut acquire) => {
                let ghost tried = acquire;
                let step = acquire.step(&mut barrier.state, cx, now, woken);
                let ghost held = barrier.state;
                let ghost got = woken@;
                match step {
                    AcquireStep::Again => {
                        assert(acquire_steps(
                            &tried,
                            &acquire,
                            &before.mutex(),
                            &barrier.mutex(),
                            cx,
                            now,
                            w0,
                            woken@,
                        ));
                        self.stage = BarrierStage::Entering(acquire);
                        BarrierStep::Again
                    },
                    AcquireStep::Pending => {
                        assert(acquire_steps(
                            &tried,
                            &acquire,
                            &before.mutex(),
                            &barrier.mutex(),
                            cx,
                            now,
                            w0,
                            woken@,
                        ));
                        self.stage = BarrierStage::Entering(acquire);
                        BarrierStep::Pending
                    },
                    AcquireStep::Overflow => {
                        assert(acquire_steps(
                            &tried,
                            &acquire,
                            &before.mutex(),
                            &barrier.mutex(),
                            cx,
                            now,
                            w0,
                            woken@,
                        ));
                        self.stage = BarrierStage::Entering(acquire);
                        BarrierStep::Overflow
                    },
                    AcquireStep::Acquired => match barrier.arrive(woken) {
                        Some(local_gen) => {
                            let listener = barrier.event.listen();
                            proof {
                                lemma_listens(&before.event, &barrier.event, &listener);
                            }
                            barrier.state.unlock(woken);
                            self.stage = BarrierStage::Waiting(listener, local_gen);
                            let r = BarrierStep::Again;
                            assert(at_first.had_lock(
                                &before,
                                barrier,
                                self,
                                tried,
                                acquire,
                                held,
                                cx,
                                now,
                                w0,
                                got,
                                got,
                                woken@,
                                r,
                            ));
                            r
                        },
                        None => {
                            let ghost told = woken@;
                            barrier.state.unlock(woken);
                            let r = BarrierStep::Passed(BarrierWaitResult { is_leader: true });
                            assert(at_first.had_lock(
                                &before,
                                barrier,
                                self,
                                tried,
                                acquire,
                                held,
                                cx,
                                now,
                                w0,
                                got,
                                told,
                                woken@,
                                r,
                            ));
                            r
                        },
                    },
                }
            },
            BarrierStage::Waiting(mut listener, local_gen) => {
                let ghost l = listener;
                match listener.poll(&mut barrier.event, cx) {
                    Poll::Ready(_) => {
                        self.stage = BarrierStage::Returning(lock(), local_gen);
                        BarrierStep::Again
                    },
                    Poll::Pending => {
                        proof {
                            lemma_restates(
                                &before.event,
                                &barrier.event,
                                l.place(&before.event),
                                State::Polling(cx.waker),
                                &l,
                            );
                        }
                        self.stage = BarrierStage::Waiting(listener, local_gen);
                        BarrierStep::Pending
                    },
                }
            },
            BarrierStage::Returning(mut acquire, local_gen) => {
                let ghost tried = acquire;
                let step = acquire.step(&mut barrier.state, cx, now, woken);
                let ghost held = barrier.state;
                let ghost got = woken@;
                match step {
                    AcquireStep::Again => {
                        assert(acquire_steps(
                            &tried,
                            &acquire,
                            &before.mutex(),
                            &barrier.mutex(),
                            cx,
                            now,
                            w0,
                            woken@,
                        ));
                        self.stage = BarrierStage::Returning(acquire, local_gen);
                        BarrierStep::Again
                    },
                    AcquireStep::Pending => {
                        assert(acquire_steps(
                            &tried,
                            &acquire,
                            &before.mutex(),
                            &barrier.mutex(),
                            cx,
                            now,
                            w0,
                            woken@,
                        ));
                        self.stage = BarrierStage::Returning(acquire, local_gen);
                        BarrierStep::Pending
                    },
                    AcquireStep::Overflow => {
                        assert(acquire_steps(
                            &tried,
                            &acquire,
                            &before.mutex(),
                            &barrier.mutex(),
                            cx,
                            now,
                            w0,
                            woken@,
                        ));
                        self.stage = BarrierStage::Returning(acquire, local_gen);
                        BarrierStep::Overflow
                    },
                    AcquireStep::Acquired => {
                        let n = barrier.n;
                        let state = barrier.state.get_mut();
                        let same_gen = local_gen == state.generation_id;
                        if same_gen && state.count < n {
                            let listener = barrier.event.listen();
                            proof {
                                lemma_listens(&before.event, &barrier.event, &listener);
                            }
                            barrier.state.unlock(woken);
                            self.stage = BarrierStage::Waiting(listener, local_gen);
                            let r = BarrierStep::Again;
                            assert(at_first.had_lock(
                                &before,
                                barrier,
                                self,
                                tried,
                                acquire,
                                held,
                                cx,
                                now,
                                w0,
                                got,
                                got,
                                woken@,
                                r,
                            ));
                            r
                        } else {
                            barrier.state.unlock(woken);
                            let r = BarrierStep::Passed(BarrierWaitResult { is_leader: false });
                            assert(at_first.had_lock(
                                &before,
                                barrier,
                                self,
                                tried,
                                acquire,
                                held,
                                cx,
                                now,
                                w0,
                                got,
                                got,
                                woken@,
                                r,
                            ));
                            r
                        }
                    },
                }
            },
            BarrierStage::Done => BarrierStep::Again,
        }
    }

    /// Gives up before the task has passed. If it was counted, it stays so.
    pub fn drop(self, barrier: &mut Barrier, woken: &mut Vec<Wake>)
        requires
            old(barrier).wf(),
            self.wf(old(barrier)),
        ensures
            final(barrier).wf(),
            final(barrier).size() == old(barrier).size(),
            final(barrier).waiting() == old(barrier).waiting(),
            final(barrier).generation() == old(barrier).generation(),
            match (self.stage(), self.seeks_lock()) {
                (BarrierStage::Waiting(listener, _), _) => {
                    &&& final(barrier).mutex() == old(barrier).mutex()
                    &&& drops(
                        &listener,
                        &old(barrier).event(),
                        &final(barrier).event(),
                        old(woken)@,
                        final(woken)@,
                    )
                },
                (_, Some(acquire)) => {
                    &&& final(barrier).event() == old(barrier).event()
                    &&& final(barrier).mutex().state() == old(barrier).mutex().state() - (
                    if acquire.stage().starving() {
                        2int
                    } else {
                        0
                    })
                    &&& match acquire.listener() {
                        Some(listener) => drops(
                            &listener,
                            &old(barrier).mutex().ops(),
                            &final(barrier).mutex().ops(),
                            old(woken)@,
                            final(woken)@,
                        ),
                        None => final(barrier).mutex().ops() == old(barrier).mutex().ops()
                            && final(woken)@ == old(woken)@,
                    }
                },
                _ => *final(barrier) == *old(barrier) && final(woken)@ == old(woken)@,
            },
    {
        match self.stage {
            BarrierStage::Entering(acquire) => acquire.drop(&mut barrier.state, woken),
            BarrierStage::Returning(acquire, _) => acquire.drop(&mut barrier.state, woken),
            BarrierStage::Waiting(listener, _) => listener.drop(&mut barrier.event, woken),
            BarrierStage::Done => {},
        }
    }
}

/// One task of each generation is the leader: once a leader has passed, the generation is another
/// one, so that each of the tasks that waited for the old one passes, and is not the leader.
pub proof fn law_one_leader(
    leader: &BarrierWait,
    before: &Barrier,
    after: &Barrier,
    leader_after: &BarrierWait,
    leader_acquire: (Acquire, Acquire, Mutex<Generation>),
    cx: &Context,
    now: Nanos,
    woken: (Seq<Wake>, Seq<Wake>, Seq<Wake>, Seq<Wake>),
    result: BarrierWaitResult,
    other: &BarrierWait,
    last: &Barrier,
    other_after: &BarrierWait,
    other_acquire: (Acquire, Acquire, Mutex<Generation>),
    other_cx: &Context,
    other_now: Nanos,
    other_woken: (Seq<Wake>, Seq<Wake>, Seq<Wake>, Seq<Wake>),
    r: BarrierStep,
)
    requires
        leader.entering(),
        leader.had_lock(
            before,
            after,
            leader_after,
            leader_acquire.0,
            leader_acquire.1,
            leader_acquire.2,
            cx,
            now,
            woken.0,
            woken.1,
            woken.2,
            woken.3,
            BarrierStep::Passed(result),
        ),
        other.stage() matches BarrierStage::Returning(_, local_gen) && local_gen
            == before.generation(),
        other.had_lock(
            after,
            last,
            other_after,
            other_acquire.0,
            other_acquire.1,
            other_acquire.2,
            other_cx,
            other_now,
            other_woken.0,
            other_woken.1,
            other_woken.2,
            other_woken.3,
            r,
        ),
    ensures
        result.leader(),
        r matches BarrierStep::Passed(other_result) && !other_result.leader(),
{
}

/// Two tasks may be at the barrier side by side: they stand at different places, be it at the lock
/// or among those who wait, and are both counted where both starve.
pub open spec fn beside_at(a: &BarrierWait, b: &BarrierWait, barrier: &Barrier) -> bool {
    &&& a.seeks_lock() is Some && b.seeks_lock() is Some ==> beside(
        &(a.seeks_lock()->0),
        &(b.seeks_lock()->0),
        &barrier.mutex(),
    )
    &&& a.stage() is Waiting && b.stage() is Waiting ==> a.stage()->Waiting_0.entry()
        != b.stage()->Waiting_0.entry()
}

/// A step of one task leaves another that is at the barrier as it was, but for a notification.
#[verifier::spinoff_prover]
#[verifier::rlimit(50)]
pub proof fn law_others_wait_at(
    task: &BarrierWait,
    before: &Barrier,
    after: &Barrier,
    next: &BarrierWait,
    cx: &Context,
    now: Nanos,
    woken: Seq<Wake>,
    woken_after: Seq<Wake>,
    r: BarrierStep,
    other: &BarrierWait,
)
    requires
        before.wf(),
        task.wf(before),
        !task.done(),
        after.size() == before.size(),
        task.steps(before, after, next, cx, now, woken, woken_after, r),
        other.wf(before),
        beside_at(task, other, before),
    ensures
        other.wf(after),
{
    let event = before.event();
    let event_after = after.event();
    event.lemma_order();
    match task.seeks_lock() {
        Some(acquire) => {
            if acquire_step(&acquire, &before.mutex(), now) is Acquired {
                let (acquired, held, got, told) = choose|
                    acquired: Acquire,
                    held: Mutex<Generation>,
                    got: Seq<Wake>,
                    told: Seq<Wake>,
                | #[trigger]
                    task.had_lock(
                        before,
                        after,
                        next,
                        acquire,
                        acquired,
                        held,
                        cx,
                        now,
                        woken,
                        got,
                        told,
                        woken_after,
                        r,
                    );
                match other.stage() {
                    BarrierStage::Waiting(l, _) => {
                        if event_after != event {
                            if next.stage() is Waiting {
                                law_others_stay_listen(
                                    &event,
                                    &event_after,
                                    &(next.stage()->Waiting_0),
                                    &l,
                                );
                            } else {
                                law_others_stay_notify(
                                    &event,
                                    &event_after,
                                    usize::MAX as int,
                                    got,
                                    told,
                                    &l,
                                );
                            }
                        }
                    },
                    BarrierStage::Done => {},
                    _ => {
                        let seeks = other.seeks_lock()->0;
                        law_others_wait(
                            &acquire,
                            &acquired,
                            &before.mutex(),
                            &held,
                            cx,
                            now,
                            woken,
                            got,
                            &seeks,
                        );
                        held.lemma_ops();
                        if seeks.listener() is Some {
                            law_others_stay_notify(
                                &held.ops(),
                                &after.mutex().ops(),
                                1,
                                told,
                                woken_after,
                                &(seeks.listener()->0),
                            );
                        }
                    },
                }
            } else if other.seeks_lock() is Some {
                let acquire_after = choose|acquire_after: Acquire|
                    {
                        &&& #[trigger] acquire_steps(
                            &acquire,
                            &acquire_after,
                            &before.mutex(),
                            &after.mutex(),
                            cx,
                            now,
                            woken,
                            woken_after,
                        )
                        &&& next.stage() == (match task.stage() {
                            BarrierStage::Returning(_, local_gen) => BarrierStage::Returning(
                                acquire_after,
                                local_gen,
                            ),
                            _ => BarrierStage::Entering(acquire_after),
                        })
                    };
                law_others_wait(
                    &acquire,
                    &acquire_after,
                    &before.mutex(),
                    &after.mutex(),
                    cx,
                    now,
                    woken,
                    woken_after,
                    &(other.seeks_lock()->0),
                );
            }
        },
        None => {
            if other.stage() is Waiting {
                let own = task.stage()->Waiting_0;
                let l = other.stage()->Waiting_0;
                let at = own.place(&event);
                assert(event.entries()[at].id == own.entry()->0);
                assert(event.entries()[l.place(&event)].id == l.entry()->0);
                if own.state(&event) is Notified {
                    law_others_stay(&event, &event_after, at, &l);
                } else {
                    lemma_restates(&event, &event_after, at, State::Polling(cx.waker), &l);
                }
            }
        },
    }
}

/// Whoever comes to the barrier waits until all have come: those who come before the last one wait,
/// and the last one is the leader, begins another generation and notifies everybody who waits. Those
/// who wait pass exactly if their generation is over, and else wait on. All of them give the lock
/// back and notify the next one.
pub proof fn law_all_pass(
    task: &BarrierWait,
    before: &Barrier,
    after: &Barrier,
    next: &BarrierWait,
    acquire: Acquire,
    acquired: Acquire,
    held: Mutex<Generation>,
    cx: &Context,
    now: Nanos,
    woken: Seq<Wake>,
    got: Seq<Wake>,
    told: Seq<Wake>,
    woken_after: Seq<Wake>,
    r: BarrierStep,
)
    requires
        before.wf(),
        held.wf(),
        task.entering() || task.stage() is Returning,
        task.had_lock(
            before,
            after,
            next,
            acquire,
            acquired,
            held,
            cx,
            now,
            woken,
            got,
            told,
            woken_after,
            r,
        ),
    ensures
        stirs(&after.mutex().ops()),
        after.mutex().state() == held.state() - 1,
        task.entering() && before.waiting() + 1 < before.size() ==> {
            &&& r is Again
            &&& after.waiting() == before.waiting() + 1
            &&& after.generation() == before.generation()
            &&& next.stage() matches BarrierStage::Waiting(_, gen) && gen == before.generation()
        },
        task.entering() && before.waiting() + 1 >= before.size() ==> {
            &&& r matches BarrierStep::Passed(result) && result.leader()
            &&& after.waiting() == 0
            &&& after.generation() != before.generation()
            &&& after.event().notified() == after.event().entries().len()
                || after.event().notified() >= usize::MAX
            &&& after.event().entries().len() == before.event().entries().len()
        },
        task.stage() matches BarrierStage::Returning(_, gen) ==> {
            &&& after.waiting() == before.waiting()
            &&& after.generation() == before.generation()
            &&& r is Passed <==> gen != before.generation()
            &&& r matches BarrierStep::Passed(result) ==> !result.leader()
            &&& !(r is Passed) ==> (next.stage() matches BarrierStage::Waiting(_, g) && g == gen)
        },
        r is Passed <==> next.done(),
{
    held.lemma_ops();
    law_notifies(&held.ops(), &after.mutex().ops(), 1, told, woken_after);
    if task.entering() && before.waiting() + 1 >= before.size() {
        law_notifies(&before.event(), &after.event(), usize::MAX as int, got, told);
        let generation = before.generation();
        assert(generation.wrapping_add(1) != generation);
    }
}

/// Whoever is told to wait at the barrier is the one who is woken up, and whoever was notified goes
/// to see whether their generation is over.
pub proof fn law_waits_at(
    task: &BarrierWait,
    before: &Barrier,
    after: &Barrier,
    next: &BarrierWait,
    cx: &Context,
    r: BarrierStep,
)
    requires
        before.wf(),
        task.wf(before),
        task.stage() is Waiting,
        task.asked(before, after, next, cx, r),
    ensures
        r is Pending ==> (next.stage() matches BarrierStage::Waiting(listener, gen) && gen
            == task.stage()->Waiting_1 && listener.state(&after.event()) == State::Polling(
            cx.waker,
        )),
        r is Pending <==> !(task.stage()->Waiting_0.state(&before.event()) is Notified),
        !(r is Pending) ==> (next.stage() matches BarrierStage::Returning(_, gen) && gen
            == task.stage()->Waiting_1),
        after.waiting() == before.waiting(),
        after.generation() == before.generation(),
{
    let listener = task.stage()->Waiting_0;
    before.event().lemma_order();
    if !(listener.state(&before.event()) is Notified) {
        lemma_restates(
            &before.event(),
            &after.event(),
            listener.place(&before.event()),
            State::Polling(cx.waker),
            &listener,
        );
    }
}

} // verus!
