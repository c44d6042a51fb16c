//! A lock for many readers or one writer.
//!
//! The state of the lock is one number: its lowest bit says that a writer has the lock or waits for
//! the readers to leave, and the rest counts the readers. Whoever writes or may come to write holds
//! a mutex besides.

use vstd::prelude::*;
use crate::platform::event::listener::{
    apart, drops, keeps, law_drop_counts, law_notifies, law_others_stay, law_others_stay_drop,
    law_others_stay_listen, law_others_stay_notify, lemma_listens, lemma_restates, listens,
    notifies, removes, restates, stirs, undisturbed, wakes, Event, EventListener, State,
};
use crate::platform::lock::mutex::{
    acquire_step, acquire_steps, beside, is_late, law_exclusive, law_others_wait, lock, Acquire,
    AcquireStep, Mutex,
};
use crate::task::{Context, Nanos, Poll, Wake};

verus! {

const WRITER_BIT: usize = 1;

const ONE_READER: usize = 2;

/// One of those who wait was notified, or nobody was.
pub open spec fn told(before: &Event, after: &Event) -> bool {
    ||| after == before
    ||| exists|woken: Seq<Wake>, woken_after: Seq<Wake>| #[trigger]
        notifies(before, after, 1, woken, woken_after)
}

/// A claim as a number.
pub open spec fn bit(claim: bool) -> int {
    if claim {
        1
    } else {
        0
    }
}

/// There are so many readers, holders of the mutex and writers more than before, and of those who
/// wait some were notified at most.
pub open spec fn shifts<T>(
    before: &RwLock<T>,
    after: &RwLock<T>,
    readers: int,
    holders: int,
    writers: int,
) -> bool {
    &&& after.readers() == before.readers() + readers
    &&& bit(after.mutex().locked()) == bit(before.mutex().locked()) + holders
    &&& bit(after.writer()) == bit(before.writer()) + writers
    &&& after.mutex().starving() == before.mutex().starving()
    &&& told(&before.mutex().ops(), &after.mutex().ops())
    &&& told(&before.no_readers(), &after.no_readers())
    &&& told(&before.no_writer(), &after.no_writer())
}

/// Whoever lets go of the lock sees to it that it does not lie idle: when there is no writer any more,
/// one of those who wait to read is notified, and when nobody has the mutex any more, one of those
/// who wait for it.
pub open spec fn wakes_next<T>(before: &RwLock<T>, after: &RwLock<T>) -> bool {
    &&& before.writer() && !after.writer() ==> stirs(&after.no_writer())
    &&& before.mutex().locked() && !after.mutex().locked() ==> stirs(&after.mutex().ops())
}

/// A lock for readers and writers.
pub struct RwLock<T> {
    mutex: Mutex<()>,
    no_readers: Event,
    no_writer: Event,
    state: usize,
    value: T,
}

impl<T> RwLock<T> {
    pub closed spec fn wf(&self) -> bool {
        &&& self.mutex.wf()
        &&& self.no_readers.wf()
        &&& self.no_writer.wf()
        &&& self.state % 2 == 1 ==> self.mutex.locked()
    }

    /// The state of the lock as one number.
    pub closed spec fn state(&self) -> usize {
        self.state
    }

    /// A writer has the lock, or waits for the readers to leave.
    pub open spec fn writer(&self) -> bool {
        self.state() % 2 == 1
    }

    pub open spec fn readers(&self) -> nat {
        (self.state() / 2) as nat
    }

    /// The lock that one needs to become a writer.
    pub closed spec fn mutex(&self) -> Mutex<()> {
        self.mutex
    }

    /// Tells the writer that waits that the readers have left.
    pub closed spec fn no_readers(&self) -> Event {
        self.no_readers
    }

    /// Tells those who wait to read that the writer has left.
    pub closed spec fn no_writer(&self) -> Event {
        self.no_writer
    }

    /// What the lock protects.
    pub closed spec fn value(&self) -> T {
        self.value
    }

    /// What only the writers' mutex is about.
    pub open spec fn same_but_mutex(&self, other: &Self) -> bool {
        &&& self.value() == other.value()
        &&& self.no_readers() == other.no_readers()
        &&& self.no_writer() == other.no_writer()
    }

    /// The parts of a well-formed lock are well-formed.
    pub proof fn lemma_parts(&self)
        requires
            self.wf(),
        ensures
            self.mutex().wf(),
            self.mutex().ops().wf(),
            self.no_readers().wf(),
            self.no_writer().wf(),
            self.writer() ==> self.mutex().locked(),
    {
        self.mutex.lemma_ops();
    }

    pub fn new(t: T) -> (r: Self)
        ensures
            r.wf(),
            r.state() == 0,
            r.mutex().state() == 0,
            r.mutex().ops().entries().len() == 0,
            r.no_readers().entries().len() == 0,
            r.no_writer().entries().len() == 0,
            r.value() == t,
    {
        RwLock {
            mutex: Mutex::new(()),
            no_readers: Event::new(0),
            no_writer: Event::new(1),
            state: 0,
            value: t,
        }
    }

    pub fn into_inner(self) -> (r: T)
        ensures
            r == self.value(),
    {
        self.value
    }

    /// Gives access to the value to the one who has the lock for themselves.
    pub fn get_mut(&mut self) -> (r: &mut T)
        requires
            old(self).wf(),
        ensures
            *r == old(self).value(),
            final(self).wf(),
            final(self).state() == old(self).state(),
            final(self).mutex() == old(self).mutex(),
            final(self).no_readers() == old(self).no_readers(),
            final(self).no_writer() == old(self).no_writer(),
            final(self).value() == *final(r),
    {
        &mut self.value
    }

    /// Whether there are more readers than another one may join.
    pub fn is_crowded(&self) -> (r: bool)
        ensures
            r == (self.state() > isize::MAX),
    {
        self.state > isize::MAX as usize
    }

    /// Begins to read, unless there is a writer.
    pub fn try_read(&mut self) -> (r: bool)
        requires
            old(self).wf(),
            !old(self).writer() ==> old(self).state() <= isize::MAX,
        ensures
            final(self).wf(),
            final(self).same_but_mutex(old(self)),
            final(self).mutex() == old(self).mutex(),
            r == !old(self).writer(),
            final(self).state() == old(self).state() + (if r {
                2int
            } else {
                0
            }),
            shifts(old(self), final(self), bit(r), 0, 0),
            wakes_next(old(self), final(self)),
    {
        if self.state % 2 != 0 {
            return false;
        }
        self.state = self.state + ONE_READER;
        true
    }

    /// Ends to read; tells the writer if this was the last reader.
    pub fn release_read(&mut self, woken: &mut Vec<Wake>)
        requires
            old(self).wf(),
            old(self).readers() > 0,
        ensures
            final(self).wf(),
            final(self).value() == old(self).value(),
            final(self).mutex() == old(self).mutex(),
            final(self).no_writer() == old(self).no_writer(),
            final(self).state() == old(self).state() - 2,
            if old(self).readers() == 1 {
                notifies(
                    &old(self).no_readers(),
                    &final(self).no_readers(),
                    1,
                    old(woken)@,
                    final(woken)@,
                )
            } else {
                final(self).no_readers() == old(self).no_readers() && final(woken)@ == old(woken)@
            },
            shifts(old(self), final(self), -1, 0, 0),
            wakes_next(old(self), final(self)),
            final(self).readers() == 0 ==> stirs(&final(self).no_readers()),
    {
        let state: usize = self.state;
        self.state = state - ONE_READER;
        if state / 2 == 1 {
            self.no_readers.notify(1, woken);
            proof {
                law_notifies(&old(self).no_readers, &self.no_readers, 1, old(woken)@, woken@);
            }
        }
    }

    /// Begins to read with the right to become a writer, unless somebody else has it.
    pub fn try_upgradable_read(&mut self) -> (r: bool)
        requires
            old(self).wf(),
            old(self).mutex().state() == 0 ==> old(self).state() <= isize::MAX,
        ensures
            final(self).wf(),
            final(self).same_but_mutex(old(self)),
            r == (old(self).mutex().state() == 0),
            final(self).mutex().ops() == old(self).mutex().ops(),
            final(self).mutex().state() == (if r {
                1
            } else {
                old(self).mutex().state()
            }),
            final(self).state() == old(self).state() + (if r {
                2int
            } else {
                0
            }),
            shifts(old(self), final(self), bit(r), bit(r), 0),
            wakes_next(old(self), final(self)),
    {
        if !self.mutex.try_lock() {
            return false;
        }
        self.state = self.state + ONE_READER;
        true
    }

    /// Ends to read with the right to become a writer.
    pub fn release_upgradable(&mut self, woken: &mut Vec<Wake>)
        requires
            old(self).wf(),
            old(self).readers() > 0,
            old(self).mutex().locked(),
            !old(self).writer(),
        ensures
            final(self).wf(),
            final(self).value() == old(self).value(),
            final(self).no_writer() == old(self).no_writer(),
            final(self).state() == old(self).state() - 2,
            final(self).mutex().state() == old(self).mutex().state() - 1,
            exists|w: Seq<Wake>|
                {
                    &&& #[trigger] notifies(
                        &old(self).mutex().ops(),
                        &final(self).mutex().ops(),
                        1,
                        w,
                        final(woken)@,
                    )
                    &&& if old(self).readers() == 1 {
                        notifies(
                            &old(self).no_readers(),
                            &final(self).no_readers(),
                            1,
                            old(woken)@,
                            w,
                        )
                    } else {
                        final(self).no_readers() == old(self).no_readers() && w == old(woken)@
                    }
                },
            shifts(old(self), final(self), -1, -1, 0),
            wakes_next(old(self), final(self)),
            final(self).readers() == 0 ==> stirs(&final(self).no_readers()),
    {
        self.release_read(woken);
        let ghost w = woken@;
        self.mutex.unlock(woken);
        assert(notifies(&old(self).mutex().ops(), &self.mutex().ops(), 1, w, woken@));
    }

    /// Gives up the right to become a writer and goes on reading.
    pub fn downgrade_upgradable(&mut self, woken: &mut Vec<Wake>)
        requires
            old(self).wf(),
            old(self).readers() > 0,
            old(self).mutex().locked(),
            !old(self).writer(),
        ensures
            final(self).wf(),
            final(self).same_but_mutex(old(self)),
            final(self).state() == old(self).state(),
            final(self).mutex().state() == old(self).mutex().state() - 1,
            notifies(
                &old(self).mutex().ops(),
                &final(self).mutex().ops(),
                1,
                old(woken)@,
                final(woken)@,
            ),
            shifts(old(self), final(self), 0, -1, 0),
            wakes_next(old(self), final(self)),
    {
        self.mutex.unlock(woken);
    }

    /// Makes the one reader a writer, if there is no other.
    pub fn try_upgrade(&mut self) -> (r: bool)
        requires
            old(self).wf(),
            old(self).mutex().locked(),
        ensures
            final(self).wf(),
            final(self).same_but_mutex(old(self)),
            final(self).mutex() == old(self).mutex(),
            r == (old(self).state() == 2),
            final(self).state() == (if r {
                1
            } else {
                old(self).state()
            }),
            shifts(old(self), final(self), -bit(r), 0, bit(r)),
            wakes_next(old(self), final(self)),
    {
        if self.state == ONE_READER {
            self.state = WRITER_BIT;
            true
        } else {
            false
        }
    }

    /// Makes a reader with the right to it a writer that waits for the other readers to leave.
    pub fn upgrade(&mut self) -> (r: Writing)
        requires
            old(self).wf(),
            old(self).readers() > 0,
            old(self).mutex().locked(),
            !old(self).writer(),
        ensures
            final(self).wf(),
            final(self).same_but_mutex(old(self)),
            final(self).mutex() == old(self).mutex(),
            final(self).readers() == old(self).readers() - 1,
            final(self).writer(),
            r.stage() is Check,
            r.listener() is None,
            r.wf(final(self)),
            shifts(old(self), final(self), -1, 0, 1),
            wakes_next(old(self), final(self)),
    {
        self.state = self.state - (ONE_READER - WRITER_BIT);
        Writing { stage: WriteStage::Check, acquire: lock(), listener: None }
    }

    /// Begins to write if nobody reads or writes.
    pub fn try_write(&mut self, woken: &mut Vec<Wake>) -> (r: bool)
        requires
            old(self).wf(),
        ensures
            final(self).wf(),
            final(self).same_but_mutex(old(self)),
            r == (old(self).mutex().state() == 0 && old(self).state() == 0),
            final(self).state() == (if r {
                1
            } else {
                old(self).state()
            }),
            final(self).mutex().state() == (if r {
                1
            } else {
                old(self).mutex().state()
            }),
            if old(self).mutex().state() == 0 && old(self).state() != 0 {
                notifies(
                    &old(self).mutex().ops(),
                    &final(self).mutex().ops(),
                    1,
                    old(woken)@,
                    final(woken)@,
                )
            } else {
                final(self).mutex().ops() == old(self).mutex().ops() && final(woken)@ == old(woken)@
            },
            shifts(old(self), final(self), 0, bit(r), bit(r)),
            wakes_next(old(self), final(self)),
    {
        if !self.mutex.try_lock() {
            return false;
        }
        if self.state == 0 {
            self.state = WRITER_BIT;
            true
        } else {
            self.mutex.unlock(woken);
            false
        }
    }

    /// Ends to write; tells one of those who wait to read and one of those who wait to write.
    pub fn release_write(&mut self, woken: &mut Vec<Wake>)
        requires
            old(self).wf(),
            old(self).writer(),
        ensures
            final(self).wf(),
            final(self).value() == old(self).value(),
            final(self).no_readers() == old(self).no_readers(),
            final(self).state() == old(self).state() - 1,
            final(self).mutex().state() == old(self).mutex().state() - 1,
            exists|w: Seq<Wake>|
                {
                    &&& #[trigger] notifies(
                        &old(self).no_writer(),
                        &final(self).no_writer(),
                        1,
                        old(woken)@,
                        w,
                    )
                    &&& notifies(
                        &old(self).mutex().ops(),
                        &final(self).mutex().ops(),
                        1,
                        w,
                        final(woken)@,
                    )
                },
            shifts(old(self), final(self), 0, -1, -1),
            wakes_next(old(self), final(self)),
    {
        self.state = self.state - WRITER_BIT;
        self.no_writer.notify(1, woken);
        let ghost w = woken@;
        proof {
            law_notifies(&old(self).no_writer, &self.no_writer, 1, old(woken)@, w);
        }
        self.mutex.unlock(woken);
        assert(notifies(&old(self).no_writer(), &self.no_writer(), 1, old(woken)@, w));
        assert(notifies(&old(self).mutex().ops(), &self.mutex().ops(), 1, w, woken@));
    }

    /// Makes the writer a reader.
    pub fn downgrade(&mut self, woken: &mut Vec<Wake>)
        requires
            old(self).wf(),
            old(self).state() == 1,
        ensures
            final(self).wf(),
            final(self).value() == old(self).value(),
            final(self).no_readers() == old(self).no_readers(),
            final(self).state() == 2,
            final(self).mutex().state() == old(self).mutex().state() - 1,
            exists|w: Seq<Wake>|
                {
                    &&& #[trigger] notifies(
                        &old(self).no_writer(),
                        &final(self).no_writer(),
                        1,
                        old(woken)@,
                        w,
                    )
                    &&& notifies(
                        &old(self).mutex().ops(),
                        &final(self).mutex().ops(),
                        1,
                        w,
                        final(woken)@,
                    )
                },
            shifts(old(self), final(self), 1, -1, -1),
            wakes_next(old(self), final(self)),
    {
        self.state = self.state + (ONE_READER - WRITER_BIT);
        self.no_writer.notify(1, woken);
        let ghost w = woken@;
        proof {
            law_notifies(&old(self).no_writer, &self.no_writer, 1, old(woken)@, w);
        }
        self.mutex.unlock(woken);
        assert(notifies(&old(self).no_writer(), &self.no_writer(), 1, old(woken)@, w));
        assert(notifies(&old(self).mutex().ops(), &self.mutex().ops(), 1, w, woken@));
    }

    /// Makes the writer a reader with the right to become a writer.
    pub fn downgrade_to_upgradable(&mut self)
        requires
            old(self).wf(),
            old(self).state() == 1,
        ensures
            final(self).wf(),
            final(self).same_but_mutex(old(self)),
            final(self).mutex() == old(self).mutex(),
            final(self).state() == 2,
            shifts(old(self), final(self), 1, 0, -1),
    {
        self.state = self.state + (ONE_READER - WRITER_BIT);
    }

    /// Begins to wait for reading.
    pub fn read() -> (r: Reading)
        ensures
            r.stage() is Try,
            r.listener() is None,
    {
        Reading { stage: ReadStage::Try, listener: None }
    }

    /// Begins to wait for reading with the right to become a writer.
    pub fn upgradable_read() -> (r: UpgradableReading)
        ensures
            r.acquire().stage() is Quick,
            r.acquire().listener() is None,
    {
        UpgradableReading { acquire: lock() }
    }

    /// Begins to wait for writing.
    pub fn write() -> (r: Writing)
        ensures
            r.stage() is Lock,
            r.listener() is None,
            r.acquire().stage() is Quick,
            r.acquire().listener() is None,
    {
        Writing { stage: WriteStage::Lock, acquire: lock(), listener: None }
    }
}

/// What came of a step of waiting for the lock.
#[derive(Clone, Copy, Debug, PartialEq, Eq, Structural)]
pub enum RwStep {
    /// There is a next step.
    Again,
    /// The task waits.
    Pending,
    /// The task has the lock.
    Acquired,
    /// There are so many readers or waiting tasks that they cannot be counted.
    Overflow,
}

/// How far a task that wants to read has come.
#[derive(Clone, Copy, Debug, PartialEq, Eq, Structural)]
pub enum ReadStage {
    /// It is about to see whether there is a writer.
    Try,
    /// There is one, and it is about to listen for it to leave.
    Listen,
    /// It is about to see whether the writer is still there.
    Recheck,
    /// It waits for the writer to leave.
    Wait,
    /// It was notified, and is about to notify the next one.
    Pass,
    /// It reads.
    Done,
}

/// A task that wants to read.
pub struct Reading {
    stage: ReadStage,
    listener: Option<EventListener>,
}

/// Where a step of a task that wants to read leads.
pub open spec fn read_transition(stage: ReadStage, state: int, notified: bool) -> (
    RwStep,
    ReadStage,
    int,
) {
    match stage {
        ReadStage::Try => if state % 2 == 1 {
            (RwStep::Again, ReadStage::Listen, state)
        } else if state > isize::MAX {
            (RwStep::Overflow, ReadStage::Try, state)
        } else {
            (RwStep::Acquired, ReadStage::Done, state + 2)
        },
        ReadStage::Listen => (RwStep::Again, ReadStage::Recheck, state),
        ReadStage::Recheck => if state % 2 == 1 {
            (RwStep::Again, ReadStage::Wait, state)
        } else {
            (RwStep::Again, ReadStage::Try, state)
        },
        ReadStage::Wait => if notified {
            (RwStep::Again, ReadStage::Pass, state)
        } else {
            (RwStep::Pending, ReadStage::Wait, state)
        },
        ReadStage::Pass => (RwStep::Again, ReadStage::Try, state),
        ReadStage::Done => (RwStep::Acquired, ReadStage::Done, state),
    }
}

impl Reading {
    pub closed spec fn stage(&self) -> ReadStage {
        self.stage
    }

    pub closed spec fn listener(&self) -> Option<EventListener> {
        self.listener
    }

    pub open spec fn wf<T>(&self, lock: &RwLock<T>) -> bool {
        &&& (self.listener() is Some) == (self.stage() is Recheck || self.stage() is Wait)
        &&& self.listener() matches Some(listener) ==> listener.active(&lock.no_writer())
            && !(listener.state(&lock.no_writer()) is Waiting)
    }

    pub open spec fn notified<T>(&self, lock: &RwLock<T>) -> bool {
        self.listener() matches Some(listener) && listener.state(&lock.no_writer()) is Notified
    }

    /// What a step does to those who wait for the writer to leave.
    pub open spec fn tells(
        &self,
        after: &Reading,
        state: int,
        event: &Event,
        event_after: &Event,
        cx: &Context,
        woken: Seq<Wake>,
        woken_after: Seq<Wake>,
    ) -> bool {
        match self.stage() {
            ReadStage::Listen => listens(event, event_after, &after.listener()->0) && woken_after
                == woken,
            ReadStage::Recheck => if state % 2 == 1 {
                &&& after.listener() == self.listener()
                &&& keeps(event, event_after)
                &&& woken_after == woken
            } else {
                drops(&self.listener()->0, event, event_after, woken, woken_after)
            },
            ReadStage::Wait => {
                let listener = self.listener()->0;
                &&& woken_after == woken
                &&& if listener.state(event) is Notified {
                    removes(event, event_after, listener.place(event))
                } else {
                    &&& restates(
                        event,
                        event_after,
                        listener.place(event),
                        State::Polling(cx.waker),
                    )
                    &&& after.listener() matches Some(l) && l.entry() == listener.entry()
                        && l.event() == listener.event()
                }
            },
            ReadStage::Pass => notifies(event, event_after, 1, woken, woken_after),
            _ => keeps(event, event_after) && woken_after == woken,
        }
    }

    /// Makes the next step.
    pub fn step<T>(&mut self, lock: &mut RwLock<T>, cx: &Context, woken: &mut Vec<Wake>) -> (r:
        RwStep)
        requires
            old(lock).wf(),
            old(self).wf(old(lock)),
            !(old(self).stage() is Done),
        ensures
            final(lock).wf(),
            final(self).wf(final(lock)),
            final(lock).value() == old(lock).value(),
            final(lock).mutex() == old(lock).mutex(),
            final(lock).no_readers() == old(lock).no_readers(),
            read_transition(
                old(self).stage(),
                old(lock).state() as int,
                old(self).notified(old(lock)),
            ) == (r, final(self).stage(), final(lock).state() as int),
            old(self).tells(
                final(self),
                old(lock).state() as int,
                &old(lock).no_writer(),
                &final(lock).no_writer(),
                cx,
                old(woken)@,
                final(woken)@,
            ),
            // Once a task was notified, it sees to it that the next one is.
            old(self).stage() is Pass ==> stirs(&final(lock).no_writer()),
    {
        match self.stage {
            ReadStage::Try => {
                if lock.state % 2 != 0 {
                    self.stage = ReadStage::Listen;
                    return RwStep::Again;
                }
                if lock.state > isize::MAX as usize {
                    return RwStep::Overflow;
                }
                lock.state = lock.state + ONE_READER;
                self.stage = ReadStage::Done;
                RwStep::Acquired
            },
            ReadStage::Listen => {
                let listener = lock.no_writer.listen();
                proof {
                    lemma_listens(&old(lock).no_writer, &lock.no_writer, &listener);
                }
                self.listener = Some(listener);
                self.stage = ReadStage::Recheck;
                RwStep::Again
            },
            ReadStage::Recheck => {
                if lock.state % 2 != 0 {
                    self.stage = ReadStage::Wait;
                } else {
                    match self.listener.take() {
                        Some(listener) => listener.drop(&mut lock.no_writer, woken),
                        None => {},
                    }
                    self.stage = ReadStage::Try;
                }
                RwStep::Again
            },
            ReadStage::Wait => match self.listener.take() {
                Some(mut listener) => match listener.poll(&mut lock.no_writer, cx) {
                    Poll::Ready(_) => {
                        self.stage = ReadStage::Pass;
                        RwStep::Again
                    },
                    Poll::Pending => {
                        proof {
                            let l = old(self).listener->0;
                            lemma_restates(
                                &old(lock).no_writer,
                                &lock.no_writer,
                                l.place(&old(lock).no_writer),
                                State::Polling(cx.waker),
                                &l,
                            );
                        }
                        self.listener = Some(listener);
                        RwStep::Pending
                    },
                },
                None => RwStep::Pending,
            },
            ReadStage::Pass => {
                lock.no_writer.notify(1, woken);
                proof {
                    law_notifies(&old(lock).no_writer, &lock.no_writer, 1, old(woken)@, woken@);
                }
                self.stage = ReadStage::Try;
                RwStep::Again
            },
            ReadStage::Done => RwStep::Acquired,
        }
    }

    /// Gives up before the task reads.
    pub fn drop<T>(self, lock: &mut RwLock<T>, woken: &mut Vec<Wake>)
        requires
            old(lock).wf(),
            self.wf(old(lock)),
        ensures
            final(lock).wf(),
            final(lock).value() == old(lock).value(),
            final(lock).mutex() == old(lock).mutex(),
            final(lock).no_readers() == old(lock).no_readers(),
            final(lock).state() == old(lock).state(),
            match self.listener() {
                Some(listener) => drops(
                    &listener,
                    &old(lock).no_writer(),
                    &final(lock).no_writer(),
                    old(woken)@,
                    final(woken)@,
                ),
                None => final(lock).no_writer() == old(lock).no_writer() && final(woken)@ == old(woken)@,
            },
    {
        match self.listener {
            Some(listener) => listener.drop(&mut lock.no_writer, woken),
            None => {},
        }
    }
}

/// A task that wants to read with the right to become a writer.
pub struct UpgradableReading {
    acquire: Acquire,
}

impl UpgradableReading {
    /// How the task acquires the mutex.
    pub closed spec fn acquire(&self) -> Acquire {
        self.acquire
    }

    pub open spec fn wf<T>(&self, lock: &RwLock<T>) -> bool {
        self.acquire().wf(&lock.mutex())
    }

    /// Makes the next step.
    pub fn step<T>(
        &mut self,
        lock: &mut RwLock<T>,
        cx: &Context,
        now: Nanos,
        woken: &mut Vec<Wake>,
    ) -> (r: RwStep)
        requires
            old(lock).wf(),
            old(self).wf(old(lock)),
            !(old(self).acquire().stage() is Done),
        ensures
            final(lock).wf(),
            final(self).wf(final(lock)),
            final(lock).same_but_mutex(old(lock)),
            acquire_steps(
                &old(self).acquire(),
                &final(self).acquire(),
                &old(lock).mutex(),
                &final(lock).mutex(),
                cx,
                now,
                old(woken)@,
                final(woken)@,
            ),
            r == (match acquire_step(&old(self).acquire(), &old(lock).mutex(), now) {
                AcquireStep::Again => RwStep::Again,
                AcquireStep::Pending => RwStep::Pending,
                AcquireStep::Overflow => RwStep::Overflow,
                AcquireStep::Acquired => if old(lock).state() > isize::MAX {
                    RwStep::Overflow
                } else {
                    RwStep::Acquired
                },
            }),
            final(lock).state() == old(lock).state() + (if r is Acquired {
                2int
            } else {
                0
            }),
    {
        match self.acquire.step(&mut lock.mutex, cx, now, woken) {
            AcquireStep::Again => RwStep::Again,
            AcquireStep::Pending => RwStep::Pending,
            AcquireStep::Overflow => RwStep::Overflow,
            AcquireStep::Acquired => {
                if lock.state > isize::MAX as usize {
                    return RwStep::Overflow;
                }
                lock.state = lock.state + ONE_READER;
                RwStep::Acquired
            },
        }
    }

    /// Gives up before the task reads.
    pub fn drop<T>(self, lock: &mut RwLock<T>, woken: &mut Vec<Wake>)
        requires
            old(lock).wf(),
            self.wf(old(lock)),
        ensures
            final(lock).wf(),
            final(lock).same_but_mutex(old(lock)),
            final(lock).state() == old(lock).state(),
            final(lock).mutex().state() == old(lock).mutex().state() - (
            if self.acquire().stage().starving() {
                2int
            } else {
                0
            }),
            match self.acquire().listener() {
                Some(listener) => drops(
                    &listener,
                    &old(lock).mutex().ops(),
                    &final(lock).mutex().ops(),
                    old(woken)@,
                    final(woken)@,
                ),
                None => final(lock).mutex().ops() == old(lock).mutex().ops() && final(woken)@
                    == old(woken)@,
            },
    {
        self.acquire.drop(&mut lock.mutex, woken);
    }
}

/// How far a task that wants to write has come.
#[derive(Clone, Copy, Debug, PartialEq, Eq, Structural)]
pub enum WriteStage {
    /// It acquires the mutex.
    Lock,
    /// It has the mutex, and is about to keep new readers out.
    Mark,
    /// It is about to see whether all readers have left.
    Check,
    /// They have not, and it is about to listen for it.
    Listen,
    /// It is about to see whether there are still readers.
    Recheck,
    /// It waits for the readers to leave.
    Wait,
    /// It writes.
    Done,
}

/// A task that wants to write.
pub struct Writing {
    stage: WriteStage,
    acquire: Acquire,
    listener: Option<EventListener>,
}

/// Where a step of a task that wants to write leads, once it has the mutex.
pub open spec fn write_transition(stage: WriteStage, state: int, notified: bool) -> (
    RwStep,
    WriteStage,
    int,
) {
    match stage {
        WriteStage::Lock => (RwStep::Again, WriteStage::Lock, state),
        WriteStage::Mark => (
            RwStep::Again,
            WriteStage::Check,
            if state % 2 == 0 {
                state + 1
            } else {
                state
            },
        ),
        WriteStage::Check => if state == 1 {
            (RwStep::Acquired, WriteStage::Done, state)
        } else {
            (RwStep::Again, WriteStage::Listen, state)
        },
        WriteStage::Listen => (RwStep::Again, WriteStage::Recheck, state),
        WriteStage::Recheck => if state == 1 {
            (RwStep::Again, WriteStage::Check, state)
        } else {
            (RwStep::Again, WriteStage::Wait, state)
        },
        WriteStage::Wait => if notified {
            (RwStep::Again, WriteStage::Check, state)
        } else {
            (RwStep::Pending, WriteStage::Wait, state)
        },
        WriteStage::Done => (RwStep::Acquired, WriteStage::Done, state),
    }
}

impl Writing {
    pub closed spec fn stage(&self) -> WriteStage {
        self.stage
    }

    /// How the task acquires the mutex.
    pub closed spec fn acquire(&self) -> Acquire {
        self.acquire
    }

    pub closed spec fn listener(&self) -> Option<EventListener> {
        self.listener
    }

    pub open spec fn wf<T>(&self, lock: &RwLock<T>) -> bool {
        &&& self.stage() is Lock ==> self.acquire().wf(&lock.mutex()) && !(self.acquire().stage()
            is Done)
        &&& !(self.stage() is Lock) ==> lock.mutex().locked()
        &&& !(self.stage() is Lock) && !(self.stage() is Mark) ==> lock.writer()
        &&& (self.listener() is Some) == (self.stage() is Recheck || self.stage() is Wait)
        &&& self.listener() matches Some(listener) ==> listener.active(&lock.no_readers())
            && !(listener.state(&lock.no_readers()) is Waiting)
    }

    pub open spec fn notified<T>(&self, lock: &RwLock<T>) -> bool {
        self.listener() matches Some(listener) && listener.state(&lock.no_readers()) is Notified
    }

    /// What a step does to the writer that waits for the readers to leave.
    pub open spec fn tells(
        &self,
        after: &Writing,
        state: int,
        event: &Event,
        event_after: &Event,
        cx: &Context,
        woken: Seq<Wake>,
        woken_after: Seq<Wake>,
    ) -> bool {
        match self.stage() {
            WriteStage::Listen => listens(event, event_after, &after.listener()->0) && woken_after
                == woken,
            WriteStage::Recheck => if state == 1 {
                drops(&self.listener()->0, event, event_after, woken, woken_after)
            } else {
                &&& after.listener() == self.listener()
                &&& keeps(event, event_after)
                &&& woken_after == woken
            },
            WriteStage::Wait => {
                let listener = self.listener()->0;
                &&& woken_after == woken
                &&& if listener.state(event) is Notified {
                    removes(event, event_after, listener.place(event))
                } else {
                    &&& restates(
                        event,
                        event_after,
                        listener.place(event),
                        State::Polling(cx.waker),
                    )
                    &&& after.listener() matches Some(l) && l.entry() == listener.entry()
                        && l.event() == listener.event()
                }
            },
            _ => keeps(event, event_after) && woken_after == woken,
        }
    }

    /// Makes the next step.
    pub fn step<T>(
        &mut self,
        lock: &mut RwLock<T>,
        cx: &Context,
        now: Nanos,
        woken: &mut Vec<Wake>,
    ) -> (r: RwStep)
        requires
            old(lock).wf(),
            old(self).wf(old(lock)),
            !(old(self).stage() is Done),
        ensures
            final(lock).wf(),
            final(self).wf(final(lock)),
            final(lock).value() == old(lock).value(),
            final(lock).no_writer() == old(lock).no_writer(),
            old(self).stage() is Lock ==> {
                &&& acquire_steps(
                    &old(self).acquire(),
                    &final(self).acquire(),
                    &old(lock).mutex(),
                    &final(lock).mutex(),
                    cx,
                    now,
                    old(woken)@,
                    final(woken)@,
                )
                &&& final(self).acquire().wf(&final(lock).mutex())
                &&& final(self).stage() == (if final(self).acquire().stage() is Done {
                    WriteStage::Mark
                } else {
                    WriteStage::Lock
                })
                &&& r == (match acquire_step(&old(self).acquire(), &old(lock).mutex(), now) {
                    AcquireStep::Pending => RwStep::Pending,
                    AcquireStep::Overflow => RwStep::Overflow,
                    _ => RwStep::Again,
                })
                &&& final(lock).state() == old(lock).state()
                &&& final(lock).no_readers() == old(lock).no_readers()
            },
            !(old(self).stage() is Lock) ==> {
                &&& final(lock).mutex() == old(lock).mutex()
                &&& write_transition(
                    old(self).stage(),
                    old(lock).state() as int,
                    old(self).notified(old(lock)),
                ) == (r, final(self).stage(), final(lock).state() as int)
                &&& old(self).tells(
                    final(self),
                    old(lock).state() as int,
                    &old(lock).no_readers(),
                    &final(lock).no_readers(),
                    cx,
                    old(woken)@,
                    final(woken)@,
                )
            },
    {
        match self.stage {
            WriteStage::Lock => match self.acquire.step(&mut lock.mutex, cx, now, woken) {
                AcquireStep::Again => RwStep::Again,
                AcquireStep::Pending => RwStep::Pending,
                AcquireStep::Overflow => RwStep::Overflow,
                AcquireStep::Acquired => {
                    self.stage = WriteStage::Mark;
                    RwStep::Again
                },
            },
            WriteStage::Mark => {
                if lock.state % 2 == 0 {
                    lock.state = lock.state + WRITER_BIT;
                }
                self.stage = WriteStage::Check;
                RwStep::Again
            },
            WriteStage::Check => {
                if lock.state == WRITER_BIT {
                    self.stage = WriteStage::Done;
                    RwStep::Acquired
                } else {
                    self.stage = WriteStage::Listen;
                    RwStep::Again
                }
            },
            WriteStage::Listen => {
                let listener = lock.no_readers.listen();
                proof {
                    lemma_listens(&old(lock).no_readers, &lock.no_readers, &listener);
                }
                self.listener = Some(listener);
                self.stage = WriteStage::Recheck;
                RwStep::Again
            },
            WriteStage::Recheck => {
                if lock.state != WRITER_BIT {
                    self.stage = WriteStage::Wait;
                } else {
                    match self.listener.take() {
                        Some(listener) => listener.drop(&mut lock.no_readers, woken),
                        None => {},
                    }
                    self.stage = WriteStage::Check;
                }
                RwStep::Again
            },
            WriteStage::Wait => match self.listener.take() {
                Some(mut listener) => match listener.poll(&mut lock.no_readers, cx) {
                    Poll::Ready(_) => {
                        self.stage = WriteStage::Check;
                        RwStep::Again
                    },
                    Poll::Pending => {
                        proof {
                            let l = old(self).listener->0;
                            lemma_restates(
                                &old(lock).no_readers,
                                &lock.no_readers,
                                l.place(&old(lock).no_readers),
                                State::Polling(cx.waker),
                                &l,
                            );
                        }
                        self.listener = Some(listener);
                        RwStep::Pending
                    },
                },
                None => RwStep::Pending,
            },
            WriteStage::Done => RwStep::Acquired,
        }
    }

    /// Giving up once readers are kept out: `heard` were woken up after the task stopped listening,
    /// and `let_in` after a reader was told that there is no writer.
    pub open spec fn backs_out<T>(
        &self,
        before: &RwLock<T>,
        after: &RwLock<T>,
        woken: Seq<Wake>,
        heard: Seq<Wake>,
        let_in: Seq<Wake>,
        woken_after: Seq<Wake>,
    ) -> bool {
        &&& match self.listener() {
            Some(listener) => drops(
                &listener,
                &before.no_readers(),
                &after.no_readers(),
                woken,
                heard,
            ),
            None => after.no_readers() == before.no_readers() && heard == woken,
        }
        &&& notifies(&before.no_writer(), &after.no_writer(), 1, heard, let_in)
        &&& notifies(&before.mutex().ops(), &after.mutex().ops(), 1, let_in, woken_after)
    }

    /// Gives up before the task writes, and lets readers in again.
    pub fn drop<T>(self, lock: &mut RwLock<T>, woken: &mut Vec<Wake>)
        requires
            old(lock).wf(),
            self.wf(old(lock)),
            !(self.stage() is Done),
            self.stage() is Mark ==> !old(lock).writer(),
        ensures
            final(lock).wf(),
            final(lock).value() == old(lock).value(),
            final(lock).readers() == old(lock).readers(),
            match self.stage() {
                WriteStage::Lock => {
                    &&& final(lock).state() == old(lock).state()
                    &&& final(lock).no_readers() == old(lock).no_readers()
                    &&& final(lock).no_writer() == old(lock).no_writer()
                    &&& final(lock).mutex().state() == old(lock).mutex().state() - (
                    if self.acquire().stage().starving() {
                        2int
                    } else {
                        0
                    })
                    &&& match self.acquire().listener() {
                        Some(listener) => drops(
                            &listener,
                            &old(lock).mutex().ops(),
                            &final(lock).mutex().ops(),
                            old(woken)@,
                            final(woken)@,
                        ),
                        None => final(lock).mutex().ops() == old(lock).mutex().ops()
                            && final(woken)@ == old(woken)@,
                    }
                },
                WriteStage::Mark => {
                    &&& final(lock).state() == old(lock).state()
                    &&& final(lock).no_readers() == old(lock).no_readers()
                    &&& final(lock).no_writer() == old(lock).no_writer()
                    &&& final(lock).mutex().state() == old(lock).mutex().state() - 1
                    &&& notifies(
                        &old(lock).mutex().ops(),
                        &final(lock).mutex().ops(),
                        1,
                        old(woken)@,
                        final(woken)@,
                    )
                },
                _ => {
                    &&& !final(lock).writer()
                    &&& final(lock).mutex().state() == old(lock).mutex().state() - 1
                    &&& exists|heard: Seq<Wake>, let_in: Seq<Wake>| #[trigger]
                        self.backs_out(
                            old(lock),
                            final(lock),
                            old(woken)@,
                            heard,
                            let_in,
                            final(woken)@,
                        )
                },
            },
            wakes_next(old(lock), final(lock)),
    {
        match self.stage {
            WriteStage::Lock => self.acquire.drop(&mut lock.mutex, woken),
            WriteStage::Mark => lock.mutex.unlock(woken),
            _ => {
                let ghost before = *lock;
                match self.listener {
                    Some(listener) => listener.drop(&mut lock.no_readers, woken),
                    None => {},
                }
                let ghost between = *lock;
                let ghost heard = woken@;
                lock.release_write(woken);
                proof {
                    let let_in = choose|w: Seq<Wake>|
                        {
                            &&& #[trigger] notifies(
                                &between.no_writer(),
                                &lock.no_writer(),
                                1,
                                heard,
                                w,
                            )
                            &&& notifies(
                                &between.mutex().ops(),
                                &lock.mutex().ops(),
                                1,
                                w,
                                woken@,
                            )
                        };
                    assert(self.backs_out(&before, lock, old(woken)@, heard, let_in, woken@));
                }
            },
        }
    }
}

/// How many steps a task that wants to read has still to make, at most, while there is no writer.
pub open spec fn read_steps_left(stage: ReadStage) -> nat {
    match stage {
        ReadStage::Done => 0,
        ReadStage::Try => 1,
        ReadStage::Pass => 2,
        ReadStage::Recheck => 2,
        ReadStage::Wait => 3,
        ReadStage::Listen => 3,
    }
}

/// While there is no writer, a task that wants to read comes nearer to it with every step, but for
/// one that waits to be notified; and with the last step it is one reader more.
pub proof fn law_reader_proceeds(stage: ReadStage, state: int, notified: bool)
    requires
        0 <= state <= isize::MAX,
        state % 2 == 0,
        !(stage is Done),
    ensures
        ({
            let (r, next, state_after) = read_transition(stage, state, notified);
            &&& (r is Pending) == (stage is Wait && !notified)
            &&& !(r is Overflow)
            &&& r is Pending ==> next == stage && state_after == state
            &&& r is Again ==> read_steps_left(next) < read_steps_left(stage) && state_after
                == state
            &&& (r is Acquired) == (next is Done)
            &&& r is Acquired ==> state_after == state + 2
        }),
{
}

/// How many steps a task that has the mutex and wants to write has still to make, at most, while
/// nobody reads.
pub open spec fn write_steps_left(stage: WriteStage) -> nat {
    match stage {
        WriteStage::Done => 0,
        WriteStage::Check => 1,
        WriteStage::Mark => 2,
        WriteStage::Recheck => 2,
        WriteStage::Wait => 2,
        WriteStage::Listen => 3,
        WriteStage::Lock => 3,
    }
}

/// While nobody reads, a task that has the mutex and wants to write comes nearer to it with every
/// step, but for one that waits to be notified; and it keeps new readers out all the while.
pub proof fn law_writer_proceeds(stage: WriteStage, state: int, notified: bool)
    requires
        stage is Mark ==> state == 0,
        !(stage is Mark) ==> state == 1,
        !(stage is Lock),
        !(stage is Done),
    ensures
        ({
            let (r, next, state_after) = write_transition(stage, state, notified);
            &&& (r is Pending) == (stage is Wait && !notified)
            &&& !(r is Overflow)
            &&& r is Pending ==> next == stage
            &&& r is Again ==> write_steps_left(next) < write_steps_left(stage)
            &&& (r is Acquired) == (next is Done)
            &&& state_after == 1
        }),
{
}

/// A task waits to read only where there was a writer after it began to listen, and a task waits to
/// write only where there were readers after it began to listen: what is notified afterwards is heard.
pub proof fn law_listens_first(reading: ReadStage, writing: WriteStage, state: int, notified: bool)
    requires
        0 <= state <= usize::MAX,
    ensures
        read_transition(reading, state, notified).1 is Wait ==> reading is Recheck && state % 2 == 1
            || reading is Wait && !notified,
        write_transition(writing, state, notified).1 is Wait ==> writing is Recheck && state != 1
            || writing is Wait && !notified,
{
}

/// Readers and writers exclude each other: nobody begins to read while there is a writer, and a
/// writer has the lock only once nobody reads.
pub proof fn law_exclusion(
    reading: ReadStage,
    writing: WriteStage,
    state: int,
    notified: bool,
)
    requires
        0 <= state <= usize::MAX,
        !(reading is Done),
        !(writing is Done),
    ensures
        state % 2 == 1 ==> !(read_transition(reading, state, notified).0 is Acquired),
        read_transition(reading, state, notified).2 % 2 == state % 2,
        write_transition(writing, state, notified).0 is Acquired ==> state % 2 == 1 && state / 2
            == 0,
        write_transition(writing, state, notified).2 / 2 == state / 2,
{
}

/// A step of a task that wants to read leaves the others that wait as they were, but for a
/// notification.
pub proof fn law_others_wait_reading<T>(
    before: &Reading,
    after: &Reading,
    lock: &RwLock<T>,
    lock_after: &RwLock<T>,
    cx: &Context,
    woken: Seq<Wake>,
    woken_after: Seq<Wake>,
)
    requires
        lock.wf(),
        before.wf(lock),
        lock_after.mutex() == lock.mutex(),
        lock_after.no_readers() == lock.no_readers(),
        ({
            let (_, stage, state) = read_transition(
                before.stage(),
                lock.state() as int,
                before.notified(lock),
            );
            after.stage() == stage && lock_after.state() == state
        }),
        before.tells(
            after,
            lock.state() as int,
            &lock.no_writer(),
            &lock_after.no_writer(),
            cx,
            woken,
            woken_after,
        ),
        after.wf(lock_after),
    ensures
        forall|other: Reading| #[trigger]
            other.wf(lock) && apart(before.listener(), other.listener()) ==> other.wf(lock_after)
                && apart(after.listener(), other.listener()) && (other.notified(lock)
                ==> other.notified(lock_after)),
        forall|other: UpgradableReading| #[trigger] other.wf(lock) ==> other.wf(lock_after),
        forall|other: Writing| #[trigger] other.wf(lock) ==> other.wf(lock_after),
{
    let event = lock.no_writer();
    let event_after = lock_after.no_writer();
    event.lemma_order();
    assert forall|other: Reading| #[trigger]
        other.wf(lock) && apart(before.listener(), other.listener()) implies other.wf(lock_after)
        && apart(after.listener(), other.listener()) && (other.notified(lock) ==> other.notified(
        lock_after,
    )) by {
        if other.listener() is Some {
            let l = other.listener()->0;
            assert(event.entries()[l.place(&event)].id == l.entry()->0);
            match before.stage() {
                ReadStage::Listen => {
                    law_others_stay_listen(&event, &event_after, &(after.listener()->0), &l);
                },
                ReadStage::Pass => {
                    law_others_stay_notify(
                        &event,
                        &event_after,
                        1,
                        woken,
                        woken_after,
                        &l,
                    );
                },
                ReadStage::Recheck => {
                    if lock.state() % 2 == 0 {
                        law_others_stay_drop(
                            &(before.listener()->0),
                            &event,
                            &event_after,
                            woken,
                            woken_after,
                            &l,
                        );
                    }
                },
                ReadStage::Wait => {
                    let own = before.listener()->0;
                    let at = own.place(&event);
                    assert(event.entries()[at].id == own.entry()->0);
                    if own.state(&event) is Notified {
                        law_others_stay(&event, &event_after, at, &l);
                    } else {
                        lemma_restates(&event, &event_after, at, State::Polling(cx.waker), &l);
                    }
                },
                _ => {},
            }
        }
    }
}

/// A step towards the mutex of the lock leaves the others that wait as they were, but for a
/// notification. Readers that come in with it change nothing for them.
pub proof fn law_others_wait_acquiring<T>(
    before: &Acquire,
    after: &Acquire,
    lock: &RwLock<T>,
    lock_after: &RwLock<T>,
    cx: &Context,
    now: Nanos,
    woken: Seq<Wake>,
    woken_after: Seq<Wake>,
)
    requires
        lock.wf(),
        before.wf(&lock.mutex()),
        !(before.stage() is Done),
        acquire_steps(
            before,
            after,
            &lock.mutex(),
            &lock_after.mutex(),
            cx,
            now,
            woken,
            woken_after,
        ),
        after.wf(&lock_after.mutex()),
        lock_after.no_readers() == lock.no_readers(),
        lock_after.no_writer() == lock.no_writer(),
        lock_after.writer() == lock.writer(),
    ensures
        forall|other: Reading| #[trigger] other.wf(lock) ==> other.wf(lock_after),
        forall|other: UpgradableReading| #[trigger]
            other.wf(lock) && beside(before, &other.acquire(), &lock.mutex()) ==> other.wf(
                lock_after,
            ) && beside(after, &other.acquire(), &lock_after.mutex()) && (other.acquire().notified(
                &lock.mutex(),
            ) ==> other.acquire().notified(&lock_after.mutex())),
        forall|other: Writing| #[trigger]
            other.wf(lock) && (other.stage() is Lock ==> beside(
                before,
                &other.acquire(),
                &lock.mutex(),
            )) ==> other.wf(lock_after) && (other.stage() is Lock ==> beside(
                after,
                &other.acquire(),
                &lock_after.mutex(),
            ) && (other.acquire().notified(&lock.mutex()) ==> other.acquire().notified(
                &lock_after.mutex(),
            ))),
{
    let mutex = lock.mutex();
    let mutex_after = lock_after.mutex();
    law_exclusive(
        before.stage(),
        mutex.state() as int,
        is_late(before.start(), now),
        before.notified(&mutex),
    );
    assert forall|other: UpgradableReading| #[trigger]
        other.wf(lock) && beside(before, &other.acquire(), &mutex) implies other.wf(lock_after)
        && beside(after, &other.acquire(), &mutex_after) && (other.acquire().notified(&mutex)
        ==> other.acquire().notified(&mutex_after)) by {
        law_others_wait(
            before,
            after,
            &mutex,
            &mutex_after,
            cx,
            now,
            woken,
            woken_after,
            &other.acquire(),
        );
    }
    assert forall|other: Writing| #[trigger]
        other.wf(lock) && (other.stage() is Lock ==> beside(
            before,
            &other.acquire(),
            &mutex,
        )) implies other.wf(lock_after) && (other.stage() is Lock ==> beside(
        after,
        &other.acquire(),
        &mutex_after,
    ) && (other.acquire().notified(&mutex) ==> other.acquire().notified(&mutex_after))) by {
        if other.stage() is Lock {
            law_others_wait(
                before,
                after,
                &mutex,
                &mutex_after,
                cx,
                now,
                woken,
                woken_after,
                &other.acquire(),
            );
        }
    }
}

/// A step of a task that wants to write and has the mutex leaves the others that wait as they were.
pub proof fn law_others_wait_writing<T>(
    before: &Writing,
    after: &Writing,
    lock: &RwLock<T>,
    lock_after: &RwLock<T>,
    cx: &Context,
    woken: Seq<Wake>,
    woken_after: Seq<Wake>,
)
    requires
        lock.wf(),
        before.wf(lock),
        !(before.stage() is Lock),
        lock_after.mutex() == lock.mutex(),
        lock_after.no_writer() == lock.no_writer(),
        ({
            let (_, stage, state) = write_transition(
                before.stage(),
                lock.state() as int,
                before.notified(lock),
            );
            after.stage() == stage && lock_after.state() == state
        }),
        before.tells(
            after,
            lock.state() as int,
            &lock.no_readers(),
            &lock_after.no_readers(),
            cx,
            woken,
            woken_after,
        ),
        after.wf(lock_after),
    ensures
        forall|other: Reading| #[trigger] other.wf(lock) ==> other.wf(lock_after),
        forall|other: UpgradableReading| #[trigger] other.wf(lock) ==> other.wf(lock_after),
        forall|other: Writing| #[trigger]
            other.wf(lock) && apart(before.listener(), other.listener()) ==> other.wf(lock_after)
                && apart(after.listener(), other.listener()) && (other.notified(lock)
                ==> other.notified(lock_after)),
{
    let event = lock.no_readers();
    let event_after = lock_after.no_readers();
    event.lemma_order();
    assert forall|other: Writing| #[trigger]
        other.wf(lock) && apart(before.listener(), other.listener()) implies other.wf(lock_after)
        && apart(after.listener(), other.listener()) && (other.notified(lock) ==> other.notified(
        lock_after,
    )) by {
        if other.listener() is Some {
            let l = other.listener()->0;
            assert(event.entries()[l.place(&event)].id == l.entry()->0);
            match before.stage() {
                WriteStage::Listen => {
                    law_others_stay_listen(&event, &event_after, &(after.listener()->0), &l);
                },
                WriteStage::Recheck => {
                    if lock.state() == 1 {
                        law_others_stay_drop(
                            &(before.listener()->0),
                            &event,
                            &event_after,
                            woken,
                            woken_after,
                            &l,
                        );
                    }
                },
                WriteStage::Wait => {
                    let own = before.listener()->0;
                    let at = own.place(&event);
                    assert(event.entries()[at].id == own.entry()->0);
                    if own.state(&event) is Notified {
                        law_others_stay(&event, &event_after, at, &l);
                    } else {
                        lemma_restates(&event, &event_after, at, State::Polling(cx.waker), &l);
                    }
                },
                _ => {},
            }
        }
    }
}

/// Where one of those who wait was notified, everybody who waits still does or was notified.
pub proof fn lemma_told(before: &Event, after: &Event, other: &EventListener)
    requires
        before.wf(),
        told(before, after),
        other.active(before),
    ensures
        undisturbed(other, before, after),
{
    before.lemma_order();
    if after != before {
        let (woken, woken_after) = choose|woken: Seq<Wake>, woken_after: Seq<Wake>| #[trigger]
            notifies(before, after, 1, woken, woken_after);
        law_others_stay_notify(
            before,
            after,
            1,
            woken,
            woken_after,
            other,
        );
    }
}

/// Whoever ends to read or to write leaves those that wait as they were, but for a notification. A
/// task that has the mutex already and waits for the readers to leave is among them as long as
/// nobody takes the mutex from it.
pub proof fn law_others_wait_release<T>(lock: &RwLock<T>, lock_after: &RwLock<T>)
    requires
        lock.wf(),
        told(&lock.mutex().ops(), &lock_after.mutex().ops()),
        told(&lock.no_writer(), &lock_after.no_writer()),
        lock_after.mutex().starving() == lock.mutex().starving(),
    ensures
        forall|other: Reading| #[trigger]
            other.wf(lock) ==> other.wf(lock_after) && (other.notified(lock) ==> other.notified(
                lock_after,
            )),
        forall|other: UpgradableReading| #[trigger] other.wf(lock) ==> other.wf(lock_after),
        forall|other: Acquire| #[trigger]
            other.wf(&lock.mutex()) ==> other.wf(&lock_after.mutex()) && (other.notified(
                &lock.mutex(),
            ) ==> other.notified(&lock_after.mutex())),
        forall|other: Writing| #[trigger]
            other.wf(lock) && (other.stage() is Lock || (lock_after.mutex().locked()
                && lock_after.writer() == lock.writer() && told(
                &lock.no_readers(),
                &lock_after.no_readers(),
            ))) ==> other.wf(lock_after) && (!(other.stage() is Lock) && other.notified(lock)
                ==> other.notified(lock_after)),
{
    let ops = lock.mutex().ops();
    let ops_after = lock_after.mutex().ops();
    assert forall|other: Reading| #[trigger] other.wf(lock) implies other.wf(lock_after) && (
    other.notified(lock) ==> other.notified(lock_after)) by {
        if other.listener() is Some {
            lemma_told(&lock.no_writer(), &lock_after.no_writer(), &(other.listener()->0));
        }
    }
    assert forall|acquire: Acquire| #[trigger] acquire.wf(&lock.mutex()) implies acquire.wf(
        &lock_after.mutex(),
    ) && (acquire.notified(&lock.mutex()) ==> acquire.notified(&lock_after.mutex())) by {
        if acquire.listener() is Some {
            lock.mutex().lemma_ops();
            lemma_told(&ops, &ops_after, &(acquire.listener()->0));
        }
    }
    assert forall|other: UpgradableReading| #[trigger] other.wf(lock) implies other.wf(
        lock_after,
    ) by {
        assert(other.acquire().wf(&lock.mutex()));
    }
    assert forall|other: Writing| #[trigger]
        other.wf(lock) && (other.stage() is Lock || (lock_after.mutex().locked()
            && lock_after.writer() == lock.writer() && told(
            &lock.no_readers(),
            &lock_after.no_readers(),
        ))) implies other.wf(lock_after) && (!(other.stage() is Lock) && other.notified(lock)
        ==> other.notified(lock_after)) by {
        if other.stage() is Lock {
            assert(other.acquire().wf(&lock.mutex()));
        }
        if other.listener() is Some {
            lemma_told(&lock.no_readers(), &lock_after.no_readers(), &(other.listener()->0));
        }
    }
}

/// Where one of those who wait was notified, nobody left or came, and no notification was taken back.
pub proof fn lemma_told_counts(before: &Event, after: &Event)
    requires
        before.wf(),
        told(before, after),
    ensures
        after.entries().len() == before.entries().len(),
        after.notified() >= before.notified(),
{
    if after != before {
        let (woken, woken_after) = choose|woken: Seq<Wake>, woken_after: Seq<Wake>| #[trigger]
            notifies(before, after, 1, woken, woken_after);
        law_notifies(before, after, 1, woken, woken_after);
    }
}

/// Readers are let in one after the other: once a reader was notified, it notifies the next one, so
/// that the one who has waited for the longest of those that were not notified is woken up, unless
/// another one was notified already.
pub proof fn law_passes_on(
    before: &Reading,
    after: &Reading,
    state: int,
    event: &Event,
    event_after: &Event,
    cx: &Context,
    woken: Seq<Wake>,
    woken_after: Seq<Wake>,
)
    requires
        event.wf(),
        before.stage() is Pass,
        before.tells(after, state, event, event_after, cx, woken, woken_after),
    ensures
        stirs(event_after),
        event.entries().len() > 0 && event.notified() == 0 ==> {
            &&& event_after.entries()[0].id == event.entries()[0].id
            &&& event_after.entries()[0].state is Notified
            &&& woken_after == woken + event.entries()[0].state.wake()
        },
{
    event.lemma_order();
    law_notifies(event, event_after, 1, woken, woken_after);
    if event.entries().len() > 0 && event.notified() == 0 {
        let first = event.entries().subrange(0, 1);
        assert(first.drop_last() =~= Seq::empty());
        assert(wakes(first.drop_last()) =~= Seq::empty());
        assert(wakes(first) =~= event.entries()[0].state.wake());
    }
}

/// What a step of a task that waits to read does to how many listen, and how many of them are
/// notified: as long as there is no writer, a notification is lost only to the task itself, which
/// then is about to pass it on.
pub proof fn lemma_reading_counts<T>(
    before: &Reading,
    after: &Reading,
    lock: &RwLock<T>,
    lock_after: &RwLock<T>,
    cx: &Context,
    woken: Seq<Wake>,
    woken_after: Seq<Wake>,
)
    requires
        lock.wf(),
        before.wf(lock),
        !(before.stage() is Done),
        ({
            let (_, stage, state) = read_transition(
                before.stage(),
                lock.state() as int,
                before.notified(lock),
            );
            after.stage() == stage && lock_after.state() == state
        }),
        before.tells(
            after,
            lock.state() as int,
            &lock.no_writer(),
            &lock_after.no_writer(),
            cx,
            woken,
            woken_after,
        ),
        after.wf(lock_after),
    ensures
        lock_after.no_writer().entries().len() == lock.no_writer().entries().len() + bit(
            after.listener() is Some,
        ) - bit(before.listener() is Some),
        lock_after.writer() == lock.writer(),
        !lock_after.writer() ==> {
            ||| lock_after.no_writer().notified() > 0
            ||| after.stage() is Pass
            ||| lock_after.no_writer().entries().len() == 0
            ||| lock.no_writer().notified() == 0 && !(before.stage() is Pass) && (after.stage()
                is Wait ==> before.stage() is Wait && !before.notified(lock))
        },
{
    let event = lock.no_writer();
    let event_after = lock_after.no_writer();
    event.lemma_order();
    if before.listener() is Some {
        let own = before.listener()->0;
        assert(event.entries()[own.place(&event)].id == own.entry()->0);
        if before.stage() is Recheck && lock.state() % 2 == 0 {
            law_drop_counts(&own, &event, &event_after, woken, woken_after);
        }
    }
    if before.stage() is Pass {
        law_notifies(&event, &event_after, 1, woken, woken_after);
    }
}

/// What a step of a task that has the mutex and waits to write does to how many listen, and how many
/// of them are notified: as long as there are no readers, a notification is lost only to the task
/// itself.
pub proof fn lemma_writing_counts<T>(
    before: &Writing,
    after: &Writing,
    lock: &RwLock<T>,
    lock_after: &RwLock<T>,
    cx: &Context,
    woken: Seq<Wake>,
    woken_after: Seq<Wake>,
)
    requires
        lock.wf(),
        before.wf(lock),
        !(before.stage() is Lock),
        !(before.stage() is Done),
        ({
            let (_, stage, state) = write_transition(
                before.stage(),
                lock.state() as int,
                before.notified(lock),
            );
            after.stage() == stage && lock_after.state() == state
        }),
        before.tells(
            after,
            lock.state() as int,
            &lock.no_readers(),
            &lock_after.no_readers(),
            cx,
            woken,
            woken_after,
        ),
        after.wf(lock_after),
    ensures
        lock_after.no_readers().entries().len() == lock.no_readers().entries().len() + bit(
            after.listener() is Some,
        ) - bit(before.listener() is Some),
        lock_after.readers() == lock.readers(),
        lock_after.writer(),
        lock_after.readers() == 0 ==> {
            ||| lock_after.no_readers().notified() > 0
            ||| lock_after.no_readers().entries().len() == 0
            ||| before.notified(lock) && after.listener() is None
            ||| lock.no_readers().notified() == 0 && (after.stage() is Wait ==> before.stage()
                is Wait && !before.notified(lock))
        },
{
    let event = lock.no_readers();
    let event_after = lock_after.no_readers();
    event.lemma_order();
    if before.listener() is Some {
        let own = before.listener()->0;
        assert(event.entries()[own.place(&event)].id == own.entry()->0);
        if before.stage() is Recheck && lock.state() == 1 {
            law_drop_counts(&own, &event, &event_after, woken, woken_after);
        }
    }
}

} // verus!
