//! A pool of threads that grows with the work and shrinks when there is none.

use std::collections::VecDeque;
use vstd::prelude::*;
use crate::task::Nanos;

verus! {

/// How many tasks there are for each idle thread before another thread is started.
pub const TASKS_PER_THREAD: usize = 5;

/// How many threads there are at most.
pub const MAX_THREADS: usize = 500;

/// How long an idle thread waits for work.
pub const IDLE_TIMEOUT: Nanos = 100_000_000;

/// The threads and the work that waits for them.
pub struct Executor<R> {
    idle_count: usize,
    thread_count: usize,
    queue: VecDeque<R>,
}

/// How many threads to start for `len` tasks where there are `threads` threads, of which `idle` are
/// idle.
pub open spec fn growth(len: nat, idle: nat, threads: nat) -> nat
    decreases MAX_THREADS - threads,
{
    if len > idle * TASKS_PER_THREAD && threads < MAX_THREADS {
        1 + growth(len, idle + 1, threads + 1)
    } else {
        0
    }
}

/// Whether a thread of the pool is at work.
#[derive(Clone, Copy, Debug, PartialEq, Eq, Structural)]
pub enum Worker {
    /// It is counted among the idle ones.
    Idle,
    /// It is at work.
    Busy,
    /// It has left the pool.
    Gone,
}

/// What a thread of the pool does next.
pub enum WorkerStep<R> {
    /// It starts so many threads, and then runs the task.
    Run(R, usize),
    /// It sleeps until there is work, or until the time is over.
    Sleep,
    /// It ends.
    Exit,
}

impl<R> Executor<R> {
    pub closed spec fn wf(&self) -> bool {
        self.idle_count <= self.thread_count <= MAX_THREADS
    }

    pub closed spec fn idle(&self) -> nat {
        self.idle_count as nat
    }

    pub closed spec fn threads(&self) -> nat {
        self.thread_count as nat
    }

    /// The tasks that wait, in the order in which they came.
    pub closed spec fn queue(&self) -> Seq<R> {
        self.queue@
    }

    pub fn new() -> (r: Self)
        ensures
            r.wf(),
            r.idle() == 0,
            r.threads() == 0,
            r.queue() == Seq::<R>::empty(),
    {
        Executor { idle_count: 0, thread_count: 0, queue: VecDeque::new() }
    }

    /// Adds a task; says how many threads to start.
    pub fn schedule(&mut self, runnable: R) -> (r: usize)
        requires
            old(self).wf(),
        ensures
            final(self).wf(),
            final(self).queue() == old(self).queue().push(runnable),
            r == growth(old(self).queue().len() + 1, old(self).idle(), old(self).threads()),
            final(self).idle() == old(self).idle() + r,
            final(self).threads() == old(self).threads() + r,
    {
        self.queue.push_back(runnable);
        self.grow_pool()
    }

    /// Says how many threads to start.
    fn grow_pool(&mut self) -> (r: usize)
        requires
            old(self).wf(),
        ensures
            final(self).wf(),
            final(self).queue() == old(self).queue(),
            r == growth(old(self).queue().len(), old(self).idle(), old(self).threads()),
            final(self).idle() == old(self).idle() + r,
            final(self).threads() == old(self).threads() + r,
    {
        let mut started: usize = 0;
        while self.queue.len() > self.idle_count * TASKS_PER_THREAD && self.thread_count
            < MAX_THREADS
            invariant
                self.wf(),
                self.queue@ == old(self).queue@,
                self.idle_count == old(self).idle_count + started,
                self.thread_count == old(self).thread_count + started,
                growth(old(self).queue().len(), old(self).idle(), old(self).threads()) == started
                    + growth(self.queue().len(), self.idle(), self.threads()),
            decreases MAX_THREADS - self.thread_count,
        {
            self.idle_count = self.idle_count + 1;
            self.thread_count = self.thread_count + 1;
            started = started + 1;
        }
        started
    }

    /// What comes of a thread looking for what to do next.
    pub open spec fn cycles(
        &self,
        worker: Worker,
        timed_out: bool,
        r: WorkerStep<R>,
        after: &Self,
        worker_after: Worker,
    ) -> bool {
        match r {
            WorkerStep::Run(runnable, started) => {
                let idle = (self.idle() - (if worker is Idle {
                    1int
                } else {
                    0
                })) as nat;
                &&& self.queue().len() > 0
                &&& runnable == self.queue()[0]
                &&& after.queue() == self.queue().drop_first()
                &&& worker_after is Busy
                &&& started == growth(
                    (self.queue().len() - 1) as nat,
                    idle,
                    self.threads(),
                )
                &&& after.idle() == idle + started
                &&& after.threads() == self.threads() + started
            },
            WorkerStep::Sleep => {
                &&& self.queue().len() == 0
                &&& worker is Idle ==> !timed_out
                &&& worker_after is Idle
                &&& after.queue() == self.queue()
                &&& after.threads() == self.threads()
                &&& after.idle() == self.idle() + (if worker is Busy {
                    1int
                } else {
                    0
                })
            },
            WorkerStep::Exit => {
                &&& self.queue().len() == 0
                &&& worker is Idle
                &&& timed_out
                &&& worker_after is Gone
                &&& after.queue() == self.queue()
                &&& after.threads() == self.threads() - 1
                &&& after.idle() == self.idle() - 1
            },
        }
    }

    /// What a thread does next. A thread that slept says whether it slept until the time was over.
    pub fn cycle_entry(&mut self, worker: &mut Worker, timed_out: bool) -> (r: WorkerStep<R>)
        requires
            old(self).wf(),
            *old(worker) is Idle ==> old(self).idle() > 0,
            *old(worker) is Busy ==> old(self).threads() > old(self).idle(),
            !(*old(worker) is Gone),
        ensures
            final(self).wf(),
            old(self).cycles(*old(worker), timed_out, r, final(self), *final(worker)),
            r is Run ==> final(self).threads() > final(self).idle(),
            r is Sleep ==> final(self).idle() > 0,
    {
        let was_idle = match *worker {
            Worker::Idle => true,
            _ => false,
        };
        if was_idle && timed_out && self.queue.len() == 0 {
            self.idle_count = self.idle_count - 1;
            self.thread_count = self.thread_count - 1;
            *worker = Worker::Gone;
            return WorkerStep::Exit;
        }
        if was_idle {
            self.idle_count = self.idle_count - 1;
        }
        match self.queue.pop_front() {
            Some(runnable) => {
                let started = self.grow_pool();
                *worker = Worker::Busy;
                WorkerStep::Run(runnable, started)
            },
            None => {
                self.idle_count = self.idle_count + 1;
                *worker = Worker::Idle;
                WorkerStep::Sleep
            },
        }
    }
}

/// The pool never has more threads than it may have.
pub proof fn law_thread_limit(len: nat, idle: nat, threads: nat)
    requires
        threads <= MAX_THREADS,
    ensures
        threads + growth(len, idle, threads) <= 500,
    decreases MAX_THREADS - threads,
{
    if len > idle * TASKS_PER_THREAD && threads < MAX_THREADS {
        law_thread_limit(len, idle + 1, threads + 1);
    }
}

/// Once the pool has grown, there is an idle thread for every five tasks that wait, or there are
/// as many threads as there may be.
pub proof fn law_enough_threads(len: nat, idle: nat, threads: nat)
    requires
        threads <= MAX_THREADS,
    ensures
        len <= (idle + growth(len, idle, threads)) * 5 || threads + growth(len, idle, threads) == 500,
    decreases MAX_THREADS - threads,
{
    if len > idle * TASKS_PER_THREAD && threads < MAX_THREADS {
        law_enough_threads(len, idle + 1, threads + 1);
    }
}

/// The pool grows by no thread that it does not need: without the last one, there would be more than
/// five tasks for every idle thread.
pub proof fn law_no_needless_thread(len: nat, idle: nat, threads: nat)
    requires
        threads <= MAX_THREADS,
    ensures
        growth(len, idle, threads) > 0 ==> len > (idle + growth(len, idle, threads) - 1) * 5,
    decreases MAX_THREADS - threads,
{
    if len > idle * TASKS_PER_THREAD && threads < MAX_THREADS {
        law_no_needless_thread(len, idle + 1, threads + 1);
    }
}

/// As long as there is work a thread does it, the oldest first; where there is none it sleeps, and
/// leaves only after it has slept until the time was over. No task is lost, and the threads are counted
/// throughout: those that are idle, and those that are not.
pub proof fn law_works_first<R>(
    before: &Executor<R>,
    worker: Worker,
    timed_out: bool,
    r: WorkerStep<R>,
    after: &Executor<R>,
    worker_after: Worker,
)
    requires
        before.wf(),
        worker is Idle ==> before.idle() > 0,
        !(worker is Gone),
        before.cycles(worker, timed_out, r, after, worker_after),
    ensures
        before.queue().len() > 0 <==> r is Run,
        r matches WorkerStep::Run(task, _) ==> before.queue() == seq![task] + after.queue(),
        !(r is Run) ==> after.queue() == before.queue(),
        r is Exit <==> before.queue().len() == 0 && worker is Idle && timed_out,
        r is Run <==> worker_after is Busy,
        r is Sleep <==> worker_after is Idle,
        r is Exit <==> worker_after is Gone,
        (after.threads() - after.idle()) - (before.threads() - before.idle()) == (
        if worker_after is Busy {
            1int
        } else {
            0
        }) - (if worker is Busy {
            1int
        } else {
            0
        }),
        after.threads() == before.threads() + (match r {
            WorkerStep::Run(_, started) => started as int,
            WorkerStep::Sleep => 0,
            WorkerStep::Exit => -1,
        }),
        after.threads() <= 500,
        r is Run ==> after.queue().len() <= after.idle() * 5 || after.threads() == 500,
{
    let idle = (before.idle() - (if worker is Idle {
        1int
    } else {
        0
    })) as nat;
    if let WorkerStep::Run(task, _) = r {
        let len = (before.queue().len() - 1) as nat;
        assert(before.queue() =~= seq![task] + after.queue());
        law_thread_limit(len, idle, before.threads());
        law_enough_threads(len, idle, before.threads());
    }
}

} // verus!
