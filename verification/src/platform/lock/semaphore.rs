//! A count of permits that tasks wait for.

use vstd::prelude::*;
use crate::platform::event::listener::{
    apart, drops, keeps, law_drop_counts, law_notifies, law_others_stay, law_others_stay_drop,
    law_others_stay_listen, law_others_stay_notify, lemma_listens, lemma_restates, listens, notifies,
    removes, restates, stirs, undisturbed, Event, EventListener, State,
};
use crate::platform::lock::mutex::{lemma_tally_remove, lemma_tally_update, tally};
use crate::task::{Context, Poll, Wake};

verus! {

/// A semaphore.
pub struct Semaphore {
    count: usize,
    event: Event,
}

impl Semaphore {
    pub closed spec fn wf(&self) -> bool {
        self.event.wf()
    }

    /// How many permits there are to be had.
    pub closed spec fn permits(&self) -> usize {
        self.count
    }

    /// What is told to those who wait.
    pub closed spec fn event(&self) -> Event {
        self.event
    }

    /// A semaphore with `n` permits.
    pub fn new(n: usize) -> (r: Self)
        ensures
            r.wf(),
            r.permits() == n,
            r.event().entries().len() == 0,
    {
        Semaphore { count: n, event: Event::new(0) }
    }

    /// Takes a permit if there is one.
    pub fn try_acquire(&mut self) -> (r: bool)
        requires
            old(self).wf(),
        ensures
            final(self).wf(),
            r == (old(self).permits() > 0),
            final(self).permits() == (if r {
                old(self).permits() - 1
            } else {
                0
            }),
            final(self).event() == old(self).event(),
    {
        if self.count == 0 {
            return false;
        }
        self.count = self.count - 1;
        true
    }

    /// Gives a permit back and notifies one of those who wait.
    pub fn release(&mut self, woken: &mut Vec<Wake>)
        requires
            old(self).wf(),
            old(self).permits() < usize::MAX,
        ensures
            final(self).wf(),
            final(self).permits() == old(self).permits() + 1,
            notifies(&old(self).event(), &final(self).event(), 1, old(woken)@, final(woken)@),
            // If anybody waits, somebody is notified.
            stirs(&final(self).event()),
    {
        self.count = self.count + 1;
        self.event.notify(1, woken);
        proof {
            law_notifies(&old(self).event, &self.event, 1, old(woken)@, woken@);
        }
    }

    /// Begins to acquire a permit.
    pub fn acquire() -> (r: AcquirePermit)
        ensures
            r.stage() is Try,
            r.listener() is None,
    {
        AcquirePermit { stage: PermitStage::Try, listener: None }
    }
}

/// How far a task has come.
#[derive(Clone, Copy, Debug, PartialEq, Eq, Structural)]
pub enum PermitStage {
    /// It is about to see whether there is a permit.
    Try,
    /// There was none.
    Missed,
    /// It has a permit.
    Done,
}

/// What came of a step.
#[derive(Clone, Copy, Debug, PartialEq, Eq, Structural)]
pub enum PermitStep {
    /// There is a next step.
    Again,
    /// The task waits.
    Pending,
    /// The task has a permit.
    Acquired,
}

/// A task that acquires a permit. It listens before it looks a second time, so that it misses no
/// permit that is given back in between.
pub struct AcquirePermit {
    stage: PermitStage,
    listener: Option<EventListener>,
}

impl AcquirePermit {
    pub closed spec fn stage(&self) -> PermitStage {
        self.stage
    }

    pub closed spec fn listener(&self) -> Option<EventListener> {
        self.listener
    }

    pub open spec fn wf(&self, semaphore: &Semaphore) -> bool {
        self.listener() matches Some(listener) ==> listener.active(&semaphore.event())
            && !(listener.state(&semaphore.event()) is Waiting)
    }

    /// What a step leaves behind.
    pub open spec fn steps(
        &self,
        after: &AcquirePermit,
        semaphore: &Semaphore,
        semaphore_after: &Semaphore,
        cx: &Context,
        woken: Seq<Wake>,
        woken_after: Seq<Wake>,
        r: PermitStep,
    ) -> bool {
        let event = semaphore.event();
        let event_after = semaphore_after.event();
        match (self.stage(), self.listener()) {
            (PermitStage::Try, listener) => if semaphore.permits() > 0 {
                &&& r is Acquired
                &&& after.stage() is Done
                &&& after.listener() is None
                &&& semaphore_after.permits() == semaphore.permits() - 1
                &&& match listener {
                    Some(l) => drops(&l, &event, &event_after, woken, woken_after),
                    None => keeps(&event, &event_after) && woken_after == woken,
                }
            } else {
                &&& r is Again
                &&& after.stage() is Missed
                &&& after.listener() == listener
                &&& semaphore_after.permits() == 0
                &&& keeps(&event, &event_after)
                &&& woken_after == woken
            },
            (_, None) => {
                &&& r is Again
                &&& after.stage() is Try
                &&& after.listener() matches Some(l) && listens(&event, &event_after, &l)
                &&& semaphore_after.permits() == semaphore.permits()
                &&& woken_after == woken
            },
            (_, Some(l)) => {
                &&& semaphore_after.permits() == semaphore.permits()
                &&& woken_after == woken
                &&& if l.state(&event) is Notified {
                    &&& r is Again
                    &&& after.stage() is Try
                    &&& after.listener() is None
                    &&& removes(&event, &event_after, l.place(&event))
                } else {
                    &&& r is Pending
                    &&& after.stage() is Missed
                    &&& after.listener() matches Some(m) && m.entry() == l.entry()
                        && m.event() == l.event()
                    &&& restates(
                        &event,
                        &event_after,
                        l.place(&event),
                        State::Polling(cx.waker),
                    )
                }
            },
        }
    }

    /// Makes the next step.
    pub fn step(
        &mut self,
        semaphore: &mut Semaphore,
        cx: &Context,
        woken: &mut Vec<Wake>,
    ) -> (r: PermitStep)
        requires
            old(semaphore).wf(),
            old(self).wf(old(semaphore)),
            !(old(self).stage() is Done),
        ensures
            final(semaphore).wf(),
            final(self).wf(final(semaphore)),
            old(self).steps(
                final(self),
                old(semaphore),
                final(semaphore),
                cx,
                old(woken)@,
                final(woken)@,
                r,
            ),
            // A permit is had exactly if there was one when the task looked.
            r is Acquired <==> old(self).stage() is Try && old(semaphore).permits() > 0,
            r is Acquired <==> final(self).stage() is Done,
            final(semaphore).permits() == old(semaphore).permits() - (if r is Acquired {
                1int
            } else {
                0
            }),
            // Whoever is told to wait listens, and is the one who is woken up.
            r is Pending ==> (final(self).listener() matches Some(listener) && listener.active(
                &final(semaphore).event(),
            ) && listener.state(&final(semaphore).event()) == State::Polling(cx.waker)),
            r is Pending ==> old(self).listener() is Some && !(old(self).stage() is Try),
            // Whoever has a permit without needing their notification hands it on.
            r is Acquired ==> (old(self).listener() matches Some(listener) ==> (listener.state(
                &old(semaphore).event(),
            ) is Notified ==> stirs(&final(semaphore).event()))),
            r is Acquired ==> final(self).listener() is None,
    {
        proof {
            if self.listener is Some {
                semaphore.event.lemma_order();
            }
        }
        match self.stage {
            PermitStage::Try => {
                if semaphore.try_acquire() {
                    match self.listener.take() {
                        Some(listener) => listener.drop(&mut semaphore.event, woken),
                        None => {},
                    }
                    proof {
                        if old(self).listener is Some {
                            law_drop_counts(
                                &(old(self).listener->0),
                                &old(semaphore).event,
                                &semaphore.event,
                                old(woken)@,
                                woken@,
                            );
                        }
                    }
                    self.stage = PermitStage::Done;
                    PermitStep::Acquired
                } else {
                    self.stage = PermitStage::Missed;
                    PermitStep::Again
                }
            },
            _ => match self.listener.take() {
                None => {
                    let listener = semaphore.event.listen();
                    proof {
                        lemma_listens(&old(semaphore).event, &semaphore.event, &listener);
                    }
                    self.listener = Some(listener);
                    self.stage = PermitStage::Try;
                    PermitStep::Again
                },
                Some(mut listener) => match listener.poll(&mut semaphore.event, cx) {
                    Poll::Ready(_) => {
                        self.stage = PermitStage::Try;
                        PermitStep::Again
                    },
                    Poll::Pending => {
                        proof {
                            let l = old(self).listener->0;
                            lemma_restates(
                                &old(semaphore).event,
                                &semaphore.event,
                                l.place(&old(semaphore).event),
                                State::Polling(cx.waker),
                                &l,
                            );
                        }
                        self.listener = Some(listener);
                        PermitStep::Pending
                    },
                },
            },
        }
    }

    /// Gives up before a permit was acquired.
    pub fn drop(self, semaphore: &mut Semaphore, woken: &mut Vec<Wake>)
        requires
            old(semaphore).wf(),
            self.wf(old(semaphore)),
        ensures
            final(semaphore).wf(),
            final(semaphore).permits() == old(semaphore).permits(),
            match self.listener() {
                Some(listener) => drops(
                    &listener,
                    &old(semaphore).event(),
                    &final(semaphore).event(),
                    old(woken)@,
                    final(woken)@,
                ),
                None => keeps(&old(semaphore).event(), &final(semaphore).event()) && final(woken)@
                    == old(woken)@,
            },
            // A notification is handed on.
            self.listener() matches Some(listener) ==> (listener.state(&old(semaphore).event())
                is Notified ==> stirs(&final(semaphore).event())),
    {
        match self.listener {
            Some(listener) => {
                listener.drop(&mut semaphore.event, woken);
                proof {
                    law_drop_counts(
                        &listener,
                        &old(semaphore).event,
                        &semaphore.event,
                        old(woken)@,
                        woken@,
                    );
                }
            },
            None => {},
        }
    }
}

/// A step of one task leaves another that waits as it was, but for a notification.
pub proof fn law_others_wait(
    before: &AcquirePermit,
    after: &AcquirePermit,
    semaphore: &Semaphore,
    semaphore_after: &Semaphore,
    cx: &Context,
    woken: Seq<Wake>,
    woken_after: Seq<Wake>,
    r: PermitStep,
    other: &AcquirePermit,
)
    requires
        semaphore.wf(),
        before.wf(semaphore),
        before.steps(after, semaphore, semaphore_after, cx, woken, woken_after, r),
        other.wf(semaphore),
        apart(before.listener(), other.listener()),
    ensures
        other.wf(semaphore_after),
        apart(after.listener(), other.listener()),
        other.listener() matches Some(listener) ==> undisturbed(
            &listener,
            &semaphore.event(),
            &semaphore_after.event(),
        ),
{
    let event = semaphore.event();
    let event_after = semaphore_after.event();
    event.lemma_order();
    if other.listener() is Some {
        let l = other.listener()->0;
        assert(event.entries()[l.place(&event)].id == l.entry()->0);
        match before.listener() {
            Some(own) => {
                let at = own.place(&event);
                assert(event.entries()[at].id == own.entry()->0);
                if before.stage() is Try {
                    if semaphore.permits() > 0 {
                        law_others_stay_drop(&own, &event, &event_after, woken, woken_after, &l);
                    }
                } else if own.state(&event) is Notified {
                    law_others_stay(&event, &event_after, at, &l);
                } else {
                    lemma_restates(&event, &event_after, at, State::Polling(cx.waker), &l);
                }
            },
            None => {
                if !(before.stage() is Try) {
                    law_others_stay_listen(&event, &event_after, &(after.listener()->0), &l);
                }
            },
        }
    }
}

/// A task that gives up leaves another that waits as it was, but for a notification that it passes
/// on.
pub proof fn law_others_wait_drop(
    given_up: &AcquirePermit,
    semaphore: &Semaphore,
    semaphore_after: &Semaphore,
    woken: Seq<Wake>,
    woken_after: Seq<Wake>,
    other: &AcquirePermit,
)
    requires
        semaphore.wf(),
        given_up.wf(semaphore),
        match given_up.listener() {
            Some(listener) => drops(
                &listener,
                &semaphore.event(),
                &semaphore_after.event(),
                woken,
                woken_after,
            ),
            None => keeps(&semaphore.event(), &semaphore_after.event()) && woken_after == woken,
        },
        other.wf(semaphore),
        apart(given_up.listener(), other.listener()),
    ensures
        other.wf(semaphore_after),
{
    if given_up.listener() is Some && other.listener() is Some {
        law_others_stay_drop(
            &(given_up.listener()->0),
            &semaphore.event(),
            &semaphore_after.event(),
            woken,
            woken_after,
            &(other.listener()->0),
        );
    }
}

/// A permit that is given back leaves everybody who waits as they were, but for a notification.
pub proof fn law_others_wait_release(
    semaphore: &Semaphore,
    semaphore_after: &Semaphore,
    woken: Seq<Wake>,
    woken_after: Seq<Wake>,
    other: &AcquirePermit,
)
    requires
        semaphore.wf(),
        notifies(&semaphore.event(), &semaphore_after.event(), 1, woken, woken_after),
        other.wf(semaphore),
    ensures
        other.wf(semaphore_after),
{
    let event = semaphore.event();
    event.lemma_order();
    if other.listener() is Some {
        law_others_stay_notify(
            &event,
            &semaphore_after.event(),
            1,
            woken,
            woken_after,
            &(other.listener()->0),
        );
    }
}

/// Which of the tasks have a permit.
pub open spec fn served(tasks: Seq<AcquirePermit>) -> Seq<bool> {
    Seq::new(tasks.len(), |i: int| tasks[i].stage() is Done)
}

/// The tasks that wait for permits or have one, together: each waits at a place of its own, and of
/// `n` permits each is with one of them or to be had.
pub open spec fn crowd(tasks: Seq<AcquirePermit>, n: nat, semaphore: &Semaphore) -> bool {
    &&& semaphore.wf()
    &&& forall|i: int| 0 <= i < tasks.len() ==> (#[trigger] tasks[i]).wf(semaphore)
    &&& forall|i: int, j: int|
        0 <= i < tasks.len() && 0 <= j < tasks.len() && i != j ==> apart(
            (#[trigger] tasks[i]).listener(),
            (#[trigger] tasks[j]).listener(),
        )
    &&& tally(served(tasks)) + semaphore.permits() == n
}

/// All permits of a new semaphore are to be had.
pub proof fn law_crowd_new(semaphore: &Semaphore)
    requires
        semaphore.wf(),
    ensures
        crowd(Seq::empty(), semaphore.permits() as nat, semaphore),
{
    assert(served(Seq::empty()) =~= Seq::empty());
}

/// A task may join the others at any time: one that begins to wait, or one that has just taken a
/// permit.
pub proof fn law_crowd_join(
    tasks: Seq<AcquirePermit>,
    n: nat,
    task: AcquirePermit,
    semaphore: &Semaphore,
    semaphore_after: &Semaphore,
)
    requires
        crowd(tasks, n, semaphore),
        task.listener() is None,
        semaphore_after.wf(),
        semaphore_after.event() == semaphore.event(),
        semaphore_after.permits() == semaphore.permits() - (if task.stage() is Done {
            1int
        } else {
            0
        }),
    ensures
        crowd(tasks.push(task), n, semaphore_after),
{
    let next = tasks.push(task);
    assert(served(next).drop_last() =~= served(tasks));
    assert forall|i: int| 0 <= i < next.len() implies (#[trigger] next[i]).wf(semaphore_after) by {
        if i < tasks.len() {
            assert(next[i] == tasks[i]);
        }
    }
    assert forall|i: int, j: int|
        0 <= i < next.len() && 0 <= j < next.len() && i != j implies apart(
        (#[trigger] next[i]).listener(),
        (#[trigger] next[j]).listener(),
    ) by {
        if i < tasks.len() && j < tasks.len() {
            assert(apart(tasks[i].listener(), tasks[j].listener()));
        }
    }
}

/// No permit is given twice and none is lost, whatever step a task makes: there are never more tasks
/// that have a permit than there were permits.
pub proof fn law_crowd(
    tasks: Seq<AcquirePermit>,
    n: nat,
    at: int,
    after: AcquirePermit,
    semaphore: &Semaphore,
    semaphore_after: &Semaphore,
    cx: &Context,
    woken: Seq<Wake>,
    woken_after: Seq<Wake>,
    r: PermitStep,
)
    requires
        crowd(tasks, n, semaphore),
        0 <= at < tasks.len(),
        !(tasks[at].stage() is Done),
        tasks[at].steps(&after, semaphore, semaphore_after, cx, woken, woken_after, r),
        semaphore_after.wf(),
        after.wf(semaphore_after),
    ensures
        crowd(tasks.update(at, after), n, semaphore_after),
        tally(served(tasks.update(at, after))) <= n,
{
    let next = tasks.update(at, after);
    assert(served(next) =~= served(tasks).update(at, after.stage() is Done));
    lemma_tally_update(served(tasks), at, after.stage() is Done);
    assert(tasks[at].wf(semaphore));
    assert forall|j: int| 0 <= j < tasks.len() && j != at implies (#[trigger] tasks[j]).wf(
        semaphore_after,
    ) && apart(after.listener(), tasks[j].listener()) by {
        assert(apart(tasks[at].listener(), tasks[j].listener()));
        law_others_wait(
            &tasks[at],
            &after,
            semaphore,
            semaphore_after,
            cx,
            woken,
            woken_after,
            r,
            &tasks[j],
        );
    }
    assert forall|i: int| 0 <= i < next.len() implies (#[trigger] next[i]).wf(semaphore_after) by {
        assert(i != at ==> next[i] == tasks[i]);
    }
    assert forall|i: int, j: int|
        0 <= i < next.len() && 0 <= j < next.len() && i != j implies apart(
        (#[trigger] next[i]).listener(),
        (#[trigger] next[j]).listener(),
    ) by {
        assert(i != at ==> next[i] == tasks[i]);
        assert(j != at ==> next[j] == tasks[j]);
        if i == at {
            assert(apart(after.listener(), tasks[j].listener()));
        } else if j == at {
            assert(apart(after.listener(), tasks[i].listener()));
        } else {
            assert(apart(tasks[i].listener(), tasks[j].listener()));
        }
    }
}

/// Where one task leaves and the others stay as they are, they stay together.
proof fn lemma_crowd_remove(
    tasks: Seq<AcquirePermit>,
    n: nat,
    at: int,
    semaphore: &Semaphore,
    semaphore_after: &Semaphore,
)
    requires
        crowd(tasks, n, semaphore),
        0 <= at < tasks.len(),
        semaphore_after.wf(),
        forall|j: int|
            0 <= j < tasks.len() && j != at ==> (#[trigger] tasks[j]).wf(semaphore_after),
        semaphore_after.permits() == semaphore.permits() + (if tasks[at].stage() is Done {
            1int
        } else {
            0
        }),
    ensures
        crowd(tasks.remove(at), n, semaphore_after),
{
    let next = tasks.remove(at);
    assert(served(next) =~= served(tasks).remove(at));
    lemma_tally_remove(served(tasks), at);
    assert forall|i: int| 0 <= i < next.len() implies (#[trigger] next[i]).wf(semaphore_after) by {
        assert(next[i] == tasks[if i < at {
            i
        } else {
            i + 1
        }]);
    }
    assert forall|i: int, j: int|
        0 <= i < next.len() && 0 <= j < next.len() && i != j implies apart(
        (#[trigger] next[i]).listener(),
        (#[trigger] next[j]).listener(),
    ) by {
        let p = if i < at {
            i
        } else {
            i + 1
        };
        let q = if j < at {
            j
        } else {
            j + 1
        };
        assert(next[i] == tasks[p]);
        assert(next[j] == tasks[q]);
        assert(apart(tasks[p].listener(), tasks[q].listener()));
    }
}

/// A task that gives its permit back keeps the others together.
pub proof fn law_crowd_release(
    tasks: Seq<AcquirePermit>,
    n: nat,
    at: int,
    semaphore: &Semaphore,
    semaphore_after: &Semaphore,
    woken: Seq<Wake>,
    woken_after: Seq<Wake>,
)
    requires
        crowd(tasks, n, semaphore),
        0 <= at < tasks.len(),
        tasks[at].stage() is Done,
        semaphore_after.wf(),
        semaphore_after.permits() == semaphore.permits() + 1,
        notifies(&semaphore.event(), &semaphore_after.event(), 1, woken, woken_after),
    ensures
        crowd(tasks.remove(at), n, semaphore_after),
{
    assert forall|j: int| 0 <= j < tasks.len() implies (#[trigger] tasks[j]).wf(
        semaphore_after,
    ) by {
        law_others_wait_release(semaphore, semaphore_after, woken, woken_after, &tasks[j]);
    }
    lemma_crowd_remove(tasks, n, at, semaphore, semaphore_after);
}

/// A task that gives up before it has a permit keeps the others together.
pub proof fn law_crowd_drop(
    tasks: Seq<AcquirePermit>,
    n: nat,
    at: int,
    semaphore: &Semaphore,
    semaphore_after: &Semaphore,
    woken: Seq<Wake>,
    woken_after: Seq<Wake>,
)
    requires
        crowd(tasks, n, semaphore),
        0 <= at < tasks.len(),
        !(tasks[at].stage() is Done),
        semaphore_after.wf(),
        semaphore_after.permits() == semaphore.permits(),
        match tasks[at].listener() {
            Some(listener) => drops(
                &listener,
                &semaphore.event(),
                &semaphore_after.event(),
                woken,
                woken_after,
            ),
            None => keeps(&semaphore.event(), &semaphore_after.event()) && woken_after == woken,
        },
    ensures
        crowd(tasks.remove(at), n, semaphore_after),
{
    assert(tasks[at].wf(semaphore));
    assert forall|j: int| 0 <= j < tasks.len() && j != at implies (#[trigger] tasks[j]).wf(
        semaphore_after,
    ) by {
        assert(apart(tasks[at].listener(), tasks[j].listener()));
        law_others_wait_drop(
            &tasks[at],
            semaphore,
            semaphore_after,
            woken,
            woken_after,
            &tasks[j],
        );
    }
    lemma_crowd_remove(tasks, n, at, semaphore, semaphore_after);
}

/// A task that waits has looked for a permit after it began to listen: one that misses a permit
/// begins to listen and then looks again, and waits only if there is none even then.
pub proof fn law_looks_twice(
    before: &AcquirePermit,
    after: &AcquirePermit,
    semaphore: &Semaphore,
    semaphore_after: &Semaphore,
    cx: &Context,
    woken: Seq<Wake>,
    woken_after: Seq<Wake>,
    r: PermitStep,
)
    requires
        !(before.stage() is Done),
        before.steps(after, semaphore, semaphore_after, cx, woken, woken_after, r),
    ensures
        r is Pending ==> before.stage() is Missed && before.listener() is Some,
        before.stage() is Missed && before.listener() is None ==> after.stage() is Try
            && after.listener() is Some,
        after.stage() is Missed && !(before.stage() is Missed) ==> semaphore.permits() == 0
            && after.listener() == before.listener(),
        before.stage() is Missed && (before.listener() matches Some(l) && l.state(&semaphore.event())
            is Notified) ==> after.stage() is Try && after.listener() is None,
        before.stage() is Try && semaphore.permits() > 0 ==> after.stage() is Done,
        // While there are permits, a task has one after three steps at most, unless it waits to be
        // notified.
        semaphore.permits() > 0 && !(r is Pending) ==> after.stage() is Done || (after.stage() is Try
            && before.stage() is Missed),
{
}

} // verus!
