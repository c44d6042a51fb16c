//! All the tasks that read, write or wait for one lock for readers and writers, taken together.

use vstd::prelude::*;
use crate::platform::event::listener::{
    apart, drops, law_drop_counts, law_notifies, law_others_stay_drop, stirs,
};
use crate::platform::lock::mutex::{
    acquire_steps, beside, is_late, law_exclusive, lemma_step_counts, lemma_tally_marked,
    lemma_tally_update, tally, Acquire,
};
use crate::platform::lock::rwlock::{
    bit, law_others_wait_acquiring, law_others_wait_reading, law_others_wait_release,
    law_others_wait_writing, lemma_reading_counts, lemma_told_counts, lemma_writing_counts,
    read_transition, shifts, told, wakes_next, write_transition, Reading, RwLock,
    UpgradableReading, WriteStage, Writing,
};
use crate::task::{Context, Nanos, Wake};

verus! {

/// A task, and what it has to do with the lock.
pub ghost enum Party {
    /// Nothing: it has not asked for the lock yet, or is done with it.
    Out,
    /// It waits to read, or reads.
    Reads(Reading),
    /// It waits to read with the right to become a writer, or does.
    MayWrite(UpgradableReading),
    /// It waits to write, or writes.
    Writes(Writing),
}

/// What a task may have of the lock.
pub ghost enum Claim {
    /// It is counted among the readers.
    Reader,
    /// It has the mutex.
    Mutex,
    /// It keeps new readers out.
    Marker,
    /// It is counted among those that starve.
    Starving,
    /// It listens for the writer to leave.
    NoWriter,
    /// It listens for the readers to leave.
    NoReaders,
    /// It listens for the mutex.
    MutexOps,
}

impl Party {
    pub open spec fn has(self, claim: Claim) -> bool {
        match (self, claim) {
            (Party::Reads(task), Claim::Reader) => task.stage() is Done,
            (Party::MayWrite(task), Claim::Reader) => task.acquire().stage() is Done,
            (Party::MayWrite(task), Claim::Mutex) => task.acquire().stage() is Done,
            (Party::MayWrite(task), Claim::Starving) => task.acquire().stage().starving(),
            (Party::Writes(task), Claim::Mutex) => !(task.stage() is Lock),
            (Party::Writes(task), Claim::Marker) => !(task.stage() is Lock) && !(task.stage()
                is Mark),
            (Party::Writes(task), Claim::Starving) => task.stage() is Lock
                && task.acquire().stage().starving(),
            (Party::Reads(task), Claim::NoWriter) => task.listener() is Some,
            (Party::Writes(task), Claim::NoReaders) => task.listener() is Some,
            (Party::MayWrite(task), Claim::MutexOps) => task.acquire().listener() is Some,
            (Party::Writes(task), Claim::MutexOps) => task.stage() is Lock
                && task.acquire().listener() is Some,
            _ => false,
        }
    }

    /// The task reads, alone or with others.
    pub open spec fn is_reading(self) -> bool {
        self.has(Claim::Reader)
    }

    /// The task writes.
    pub open spec fn is_writing(self) -> bool {
        self matches Party::Writes(task) && task.stage() is Done
    }

    pub open spec fn wf<T>(self, lock: &RwLock<T>) -> bool {
        match self {
            Party::Out => true,
            Party::Reads(task) => task.wf(lock),
            Party::MayWrite(task) => task.wf(lock),
            Party::Writes(task) => task.wf(lock),
        }
    }

    /// How the task acquires the mutex, if it does.
    pub open spec fn seeks(self) -> Option<Acquire> {
        match self {
            Party::MayWrite(task) => Some(task.acquire()),
            Party::Writes(task) if task.stage() is Lock => Some(task.acquire()),
            _ => None,
        }
    }

    /// The task does not wait for anything.
    pub open spec fn waits_not(self) -> bool {
        match self {
            Party::Out => true,
            Party::Reads(task) => task.stage() is Done && task.listener() is None,
            Party::MayWrite(task) => task.acquire().stage() is Done && task.acquire().listener()
                is None,
            Party::Writes(task) => !(task.stage() is Lock) && task.listener() is None,
        }
    }

    /// The task waits for the writer to leave, and was not notified.
    pub open spec fn waits_to_read<T>(self, lock: &RwLock<T>) -> bool {
        self matches Party::Reads(task) && task.stage() is Wait && !task.notified(lock)
    }

    /// The task waits for the readers to leave, and was not notified.
    pub open spec fn waits_to_write<T>(self, lock: &RwLock<T>) -> bool {
        self matches Party::Writes(task) && task.stage() is Wait && !task.notified(lock)
    }

    /// The task waits for the mutex, and was not notified.
    pub open spec fn waits_for_mutex<T>(self, lock: &RwLock<T>) -> bool {
        self.seeks() matches Some(task) && task.idle(&lock.mutex())
    }

    /// The task was notified that the writer left, and is to notify the next reader.
    pub open spec fn hands_on(self) -> bool {
        self matches Party::Reads(task) && task.stage() is Pass
    }

    /// The task is on its way to the mutex: it has more steps to make before it waits or has it.
    pub open spec fn is_busy(self) -> bool {
        self.seeks() matches Some(task) && task.stage().busy()
    }
}

/// Two tasks stand at different places where they wait for the same.
pub open spec fn parties_apart(a: Party, b: Party) -> bool {
    &&& a.seeks() is Some && b.seeks() is Some ==> apart(
        a.seeks()->0.listener(),
        b.seeks()->0.listener(),
    )
    &&& a is Reads && b is Reads ==> apart(a->Reads_0.listener(), b->Reads_0.listener())
    &&& a is Writes && b is Writes ==> apart(a->Writes_0.listener(), b->Writes_0.listener())
}

/// Which of the tasks have `claim`.
pub open spec fn claims(tasks: Seq<Party>, claim: Claim) -> Seq<bool> {
    Seq::new(tasks.len(), |i: int| tasks[i].has(claim))
}

/// How many of the tasks have `claim`.
pub open spec fn count(tasks: Seq<Party>, claim: Claim) -> nat {
    tally(claims(tasks, claim))
}

/// All tasks of a lock, together: each is well-formed and waits at a place of its own, whatever they
/// have of the lock is what the lock says is taken, and whoever writes does so while nobody reads.
pub open spec fn gathered<T>(tasks: Seq<Party>, lock: &RwLock<T>) -> bool {
    &&& lock.wf()
    &&& forall|i: int| 0 <= i < tasks.len() ==> (#[trigger] tasks[i]).wf(lock)
    &&& forall|i: int, j: int|
        0 <= i < tasks.len() && 0 <= j < tasks.len() && i != j ==> parties_apart(
            #[trigger] tasks[i],
            #[trigger] tasks[j],
        )
    &&& count(tasks, Claim::Reader) == lock.readers()
    &&& count(tasks, Claim::Mutex) == bit(lock.mutex().locked())
    &&& count(tasks, Claim::Marker) == bit(lock.writer())
    &&& count(tasks, Claim::Starving) == lock.mutex().starving()
    &&& forall|i: int|
        0 <= i < tasks.len() && (#[trigger] tasks[i]).is_writing() ==> lock.readers() == 0
}

/// Nobody waits for ever for what is free: the tasks are all those who listen, and
/// - while there is no writer, if a task waits to read without having been notified, then another one
///   was notified, or is about to notify the next one;
/// - if a task waits for the readers to leave without having been notified, then there are readers;
/// - while nobody has the mutex, if a task waits for it without having been notified, then another one
///   was notified, or is on its way to it.
pub open spec fn cared_for<T>(tasks: Seq<Party>, lock: &RwLock<T>) -> bool {
    &&& count(tasks, Claim::NoWriter) == lock.no_writer().entries().len()
    &&& count(tasks, Claim::NoReaders) == lock.no_readers().entries().len()
    &&& count(tasks, Claim::MutexOps) == lock.mutex().ops().entries().len()
    &&& !lock.writer() && lock.no_writer().notified() == 0 && (exists|i: int|
        0 <= i < tasks.len() && (#[trigger] tasks[i]).waits_to_read(lock)) ==> exists|j: int|
        0 <= j < tasks.len() && (#[trigger] tasks[j]).hands_on()
    &&& lock.readers() == 0 ==> forall|i: int|
        0 <= i < tasks.len() ==> !(#[trigger] tasks[i]).waits_to_write(lock)
    &&& !lock.mutex().locked() && lock.mutex().ops().notified() == 0 && (exists|i: int|
        0 <= i < tasks.len() && (#[trigger] tasks[i]).waits_for_mutex(lock)) ==> exists|j: int|
        0 <= j < tasks.len() && (#[trigger] tasks[j]).is_busy()
}

proof fn lemma_count_update(tasks: Seq<Party>, at: int, after: Party, claim: Claim)
    requires
        0 <= at < tasks.len(),
    ensures
        count(tasks.update(at, after), claim) == count(tasks, claim) - bit(tasks[at].has(claim))
            + bit(after.has(claim)),
{
    let marks = claims(tasks, claim);
    assert(claims(tasks.update(at, after), claim) =~= marks.update(at, after.has(claim)));
    lemma_tally_update(marks, at, after.has(claim));
}

/// Whoever has a claim is counted.
proof fn lemma_counted(tasks: Seq<Party>, at: int, claim: Claim)
    requires
        0 <= at < tasks.len(),
        tasks[at].has(claim),
    ensures
        count(tasks, claim) >= 1,
{
    assert(claims(tasks, claim)[at]);
    lemma_tally_marked(claims(tasks, claim), at);
}

/// Two that have a claim are both counted.
proof fn lemma_both_counted(tasks: Seq<Party>, i: int, j: int, claim: Claim)
    requires
        0 <= i < tasks.len(),
        0 <= j < tasks.len(),
        i != j,
        tasks[i].has(claim),
        tasks[j].has(claim),
    ensures
        count(tasks, claim) >= 2,
{
    lemma_count_update(tasks, i, Party::Out, claim);
    lemma_counted(tasks.update(i, Party::Out), j, claim);
}

/// If many have one claim, then one of them has it.
proof fn lemma_some_counted(tasks: Seq<Party>, claim: Claim) -> (at: int)
    requires
        count(tasks, claim) >= 1,
    ensures
        0 <= at < tasks.len(),
        tasks[at].has(claim),
    decreases tasks.len(),
{
    let marks = claims(tasks, claim);
    if marks.last() {
        tasks.len() - 1
    } else {
        let rest = tasks.drop_last();
        assert(claims(rest, claim) =~= marks.drop_last());
        lemma_some_counted(rest, claim)
    }
}

/// Readers and writers exclude each other: while a task writes, no other task reads or writes, or
/// may come to write.
pub proof fn law_writer_alone<T>(tasks: Seq<Party>, lock: &RwLock<T>, i: int, j: int)
    requires
        gathered(tasks, lock),
        0 <= i < tasks.len(),
        0 <= j < tasks.len(),
        i != j,
        tasks[i].is_writing(),
    ensures
        !tasks[j].is_reading(),
        !tasks[j].is_writing(),
        !tasks[j].has(Claim::Mutex),
{
    if tasks[j].is_reading() {
        lemma_counted(tasks, j, Claim::Reader);
    }
    if tasks[j].has(Claim::Mutex) {
        lemma_both_counted(tasks, i, j, Claim::Mutex);
    }
}

/// A lock that is kept from new readers is kept so by a task that has the mutex.
proof fn lemma_nobody_writes<T>(tasks: Seq<Party>, lock: &RwLock<T>, at: int)
    requires
        gathered(tasks, lock),
        0 <= at < tasks.len(),
        !lock.writer() || !lock.mutex().locked() || tasks[at].has(Claim::Mutex),
    ensures
        forall|j: int| 0 <= j < tasks.len() && j != at ==> !(#[trigger] tasks[j]).is_writing(),
        !tasks[at].has(Claim::Mutex) ==> !tasks[at].is_writing(),
{
    assert forall|j: int| 0 <= j < tasks.len() && j != at implies !(
    #[trigger] tasks[j]).is_writing() by {
        if tasks[j].is_writing() {
            lemma_counted(tasks, j, Claim::Marker);
            lemma_counted(tasks, j, Claim::Mutex);
            if tasks[at].has(Claim::Mutex) {
                lemma_both_counted(tasks, at, j, Claim::Mutex);
            }
        }
    }
}

/// What one task does keeps all of them together.
proof fn lemma_gathered<T>(
    tasks: Seq<Party>,
    at: int,
    after: Party,
    lock: &RwLock<T>,
    lock_after: &RwLock<T>,
)
    requires
        gathered(tasks, lock),
        lock_after.wf(),
        0 <= at < tasks.len(),
        after.wf(lock_after),
        forall|j: int|
            0 <= j < tasks.len() && j != at ==> (#[trigger] tasks[j]).wf(lock_after)
                && parties_apart(after, tasks[j]),
        lock_after.readers() == lock.readers() + bit(after.has(Claim::Reader)) - bit(
            tasks[at].has(Claim::Reader),
        ),
        bit(lock_after.mutex().locked()) == bit(lock.mutex().locked()) + bit(
            after.has(Claim::Mutex),
        ) - bit(tasks[at].has(Claim::Mutex)),
        bit(lock_after.writer()) == bit(lock.writer()) + bit(after.has(Claim::Marker)) - bit(
            tasks[at].has(Claim::Marker),
        ),
        lock_after.mutex().starving() == lock.mutex().starving() + bit(
            after.has(Claim::Starving),
        ) - bit(tasks[at].has(Claim::Starving)),
        after.is_writing() ==> lock_after.readers() == 0,
        lock_after.readers() <= lock.readers() || forall|j: int|
            0 <= j < tasks.len() && j != at ==> !(#[trigger] tasks[j]).is_writing(),
    ensures
        gathered(tasks.update(at, after), lock_after),
{
    let next = tasks.update(at, after);
    lemma_count_update(tasks, at, after, Claim::Reader);
    lemma_count_update(tasks, at, after, Claim::Mutex);
    lemma_count_update(tasks, at, after, Claim::Marker);
    lemma_count_update(tasks, at, after, Claim::Starving);
    assert forall|i: int| 0 <= i < next.len() implies (#[trigger] next[i]).wf(lock_after) by {
        assert(i != at ==> next[i] == tasks[i]);
    }
    assert forall|i: int, j: int|
        0 <= i < next.len() && 0 <= j < next.len() && i != j implies parties_apart(
        #[trigger] next[i],
        #[trigger] next[j],
    ) by {
        assert(i != at ==> next[i] == tasks[i]);
        assert(j != at ==> next[j] == tasks[j]);
        if i == at {
            assert(parties_apart(after, tasks[j]));
        } else if j == at {
            assert(parties_apart(after, tasks[i]));
        } else {
            assert(parties_apart(tasks[i], tasks[j]));
        }
    }
    assert forall|i: int| 0 <= i < next.len() && (#[trigger] next[i]).is_writing() implies
        lock_after.readers() == 0 by {
        assert(i != at ==> next[i] == tasks[i]);
    }
}

/// The one who waits for the readers to leave is alone in that, so that it is the one who is notified.
proof fn lemma_only_writer<T>(tasks: Seq<Party>, lock: &RwLock<T>, at: int)
    requires
        gathered(tasks, lock),
        count(tasks, Claim::NoReaders) == lock.no_readers().entries().len(),
        0 <= at < tasks.len(),
        tasks[at].waits_to_write(lock),
    ensures
        lock.no_readers().entries().len() == 1,
        lock.no_readers().notified() == 0,
{
    let task = tasks[at]->Writes_0;
    let own = task.listener()->0;
    let event = lock.no_readers();
    assert(tasks[at].wf(lock));
    lock.lemma_parts();
    event.lemma_order();
    lemma_counted(tasks, at, Claim::NoReaders);
    if count(tasks, Claim::NoReaders) >= 2 {
        lemma_count_update(tasks, at, Party::Out, Claim::NoReaders);
        let j = lemma_some_counted(tasks.update(at, Party::Out), Claim::NoReaders);
        assert(tasks[j].wf(lock));
        lemma_both_counted(tasks, at, j, Claim::Mutex);
    }
    assert(event.entries()[own.place(&event)].id == own.entry()->0);
}

/// What one task does leaves nobody to wait for ever for what is free, as long as it takes no
/// notification with it.
proof fn lemma_cared<T>(
    tasks: Seq<Party>,
    at: int,
    after: Party,
    lock: &RwLock<T>,
    lock_after: &RwLock<T>,
)
    requires
        cared_for(tasks, lock),
        0 <= at < tasks.len(),
        gathered(tasks.update(at, after), lock_after),
        lock_after.no_writer().entries().len() == lock.no_writer().entries().len() + bit(
            after.has(Claim::NoWriter),
        ) - bit(tasks[at].has(Claim::NoWriter)),
        lock_after.no_readers().entries().len() == lock.no_readers().entries().len() + bit(
            after.has(Claim::NoReaders),
        ) - bit(tasks[at].has(Claim::NoReaders)),
        lock_after.mutex().ops().entries().len() == lock.mutex().ops().entries().len() + bit(
            after.has(Claim::MutexOps),
        ) - bit(tasks[at].has(Claim::MutexOps)),
        forall|j: int|
            0 <= j < tasks.len() && j != at ==> {
                &&& (#[trigger] tasks[j]).waits_to_read(lock_after) ==> tasks[j].waits_to_read(lock)
                &&& tasks[j].waits_to_write(lock_after) ==> tasks[j].waits_to_write(lock)
                &&& tasks[j].waits_for_mutex(lock_after) ==> tasks[j].waits_for_mutex(lock)
            },
        !lock_after.writer() ==> {
            ||| lock_after.no_writer().notified() > 0
            ||| lock_after.no_writer().entries().len() == 0
            ||| after.hands_on()
            ||| !lock.writer() && lock.no_writer().notified() == 0 && !tasks[at].hands_on() && (
            after.waits_to_read(lock_after) ==> tasks[at].waits_to_read(lock))
        },
        lock_after.readers() == 0 ==> {
            ||| stirs(&lock_after.no_readers())
            ||| lock.readers() == 0 && (after.waits_to_write(lock_after)
                ==> tasks[at].waits_to_write(lock))
        },
        !lock_after.mutex().locked() ==> {
            ||| lock_after.mutex().ops().notified() > 0
            ||| lock_after.mutex().ops().entries().len() == 0
            ||| after.is_busy()
            ||| !lock.mutex().locked() && lock.mutex().ops().notified() == 0
                && !tasks[at].is_busy() && (after.waits_for_mutex(lock_after)
                ==> tasks[at].waits_for_mutex(lock))
        },
    ensures
        cared_for(tasks.update(at, after), lock_after),
{
    let next = tasks.update(at, after);
    lemma_count_update(tasks, at, after, Claim::NoWriter);
    lemma_count_update(tasks, at, after, Claim::NoReaders);
    lemma_count_update(tasks, at, after, Claim::MutexOps);
    assert forall|i: int|
        !lock_after.writer() && lock_after.no_writer().notified() == 0 && 0 <= i < next.len()
            && (#[trigger] next[i]).waits_to_read(lock_after) implies exists|j: int|
        0 <= j < next.len() && (#[trigger] next[j]).hands_on() by {
        assert(i != at ==> next[i] == tasks[i]);
        assert(next[i].wf(lock_after));
        lemma_counted(next, i, Claim::NoWriter);
        if after.hands_on() {
            assert(next[at].hands_on());
        } else {
            assert(tasks[i].waits_to_read(lock));
            let j = choose|j: int| 0 <= j < tasks.len() && (#[trigger] tasks[j]).hands_on();
            assert(next[j] == tasks[j]);
        }
    }
    assert forall|i: int|
        lock_after.readers() == 0 && 0 <= i < next.len() implies !(
    #[trigger] next[i]).waits_to_write(lock_after) by {
        assert(i != at ==> next[i] == tasks[i]);
        if next[i].waits_to_write(lock_after) {
            lemma_only_writer(next, lock_after, i);
        }
    }
    assert forall|i: int|
        !lock_after.mutex().locked() && lock_after.mutex().ops().notified() == 0 && 0 <= i
            < next.len() && (#[trigger] next[i]).waits_for_mutex(lock_after) implies exists|j: int|
        0 <= j < next.len() && (#[trigger] next[j]).is_busy() by {
        assert(i != at ==> next[i] == tasks[i]);
        assert(next[i].wf(lock_after));
        lemma_counted(next, i, Claim::MutexOps);
        if after.is_busy() {
            assert(next[at].is_busy());
        } else {
            assert(tasks[i].waits_for_mutex(lock));
            let j = choose|j: int| 0 <= j < tasks.len() && (#[trigger] tasks[j]).is_busy();
            assert(next[j] == tasks[j]);
        }
    }
}

/// A new lock is nobody's.
pub proof fn law_gathered_new<T>(n: nat, lock: &RwLock<T>)
    requires
        lock.wf(),
        lock.state() == 0,
        lock.mutex().state() == 0,
    ensures
        gathered(Seq::new(n, |i: int| Party::Out), lock),
        lock.no_writer().entries().len() == 0 && lock.no_readers().entries().len() == 0
            && lock.mutex().ops().entries().len() == 0 ==> cared_for(
            Seq::new(n, |i: int| Party::Out),
            lock,
        ),
{
    let tasks = Seq::new(n, |i: int| Party::Out);
    lemma_nothing_claimed(tasks, Claim::Reader);
    lemma_nothing_claimed(tasks, Claim::Mutex);
    lemma_nothing_claimed(tasks, Claim::Marker);
    lemma_nothing_claimed(tasks, Claim::Starving);
    lemma_nothing_claimed(tasks, Claim::NoWriter);
    lemma_nothing_claimed(tasks, Claim::NoReaders);
    lemma_nothing_claimed(tasks, Claim::MutexOps);
}

proof fn lemma_nothing_claimed(tasks: Seq<Party>, claim: Claim)
    requires
        forall|i: int| 0 <= i < tasks.len() ==> (#[trigger] tasks[i]) is Out,
    ensures
        count(tasks, claim) == 0,
{
    if count(tasks, claim) >= 1 {
        let at = lemma_some_counted(tasks, claim);
        assert(tasks[at] is Out);
    }
}

/// A task may begin to wait for the lock at any time, in whatever way.
pub proof fn law_gathered_begin<T>(tasks: Seq<Party>, at: int, after: Party, lock: &RwLock<T>)
    requires
        gathered(tasks, lock),
        0 <= at < tasks.len(),
        tasks[at] is Out,
        match after {
            Party::Out => true,
            Party::Reads(task) => task.stage() is Try && task.listener() is None,
            Party::MayWrite(task) => task.acquire().stage() is Quick && task.acquire().listener()
                is None,
            Party::Writes(task) => task.stage() is Lock && task.listener() is None
                && task.acquire().stage() is Quick && task.acquire().listener() is None,
        },
    ensures
        gathered(tasks.update(at, after), lock),
        cared_for(tasks, lock) ==> cared_for(tasks.update(at, after), lock),
{
    lemma_gathered(tasks, at, after, lock, lock);
    if cared_for(tasks, lock) {
        lemma_cared(tasks, at, after, lock, lock);
    }
}

/// A step of a task that waits to read keeps all tasks together.
pub proof fn law_gathered_reading<T>(
    tasks: Seq<Party>,
    at: int,
    after: Reading,
    lock: &RwLock<T>,
    lock_after: &RwLock<T>,
    cx: &Context,
    woken: Seq<Wake>,
    woken_after: Seq<Wake>,
)
    requires
        gathered(tasks, lock),
        lock_after.wf(),
        0 <= at < tasks.len(),
        tasks[at] matches Party::Reads(before) && {
            let (_, stage, state) = read_transition(
                before.stage(),
                lock.state() as int,
                before.notified(lock),
            );
            &&& !(before.stage() is Done)
            &&& after.stage() == stage
            &&& lock_after.state() == state
            &&& before.tells(
                &after,
                lock.state() as int,
                &lock.no_writer(),
                &lock_after.no_writer(),
                cx,
                woken,
                woken_after,
            )
        },
        lock_after.mutex() == lock.mutex(),
        lock_after.no_readers() == lock.no_readers(),
        after.wf(lock_after),
    ensures
        gathered(tasks.update(at, Party::Reads(after)), lock_after),
        cared_for(tasks, lock) ==> cared_for(tasks.update(at, Party::Reads(after)), lock_after),
{
    let before = tasks[at]->Reads_0;
    assert(tasks[at].wf(lock));
    law_others_wait_reading(&before, &after, lock, lock_after, cx, woken, woken_after);
    assert forall|j: int| 0 <= j < tasks.len() && j != at implies (#[trigger] tasks[j]).wf(
        lock_after,
    ) && parties_apart(Party::Reads(after), tasks[j]) by {
        assert(parties_apart(tasks[at], tasks[j]));
        match tasks[j] {
            Party::Reads(other) => {
                assert(other.wf(lock));
            },
            Party::MayWrite(other) => {
                assert(other.wf(lock));
            },
            Party::Writes(other) => {
                assert(other.wf(lock));
            },
            Party::Out => {},
        }
    }
    if after.stage() is Done {
        lemma_nobody_writes(tasks, lock, at);
    }
    lemma_gathered(tasks, at, Party::Reads(after), lock, lock_after);
    if cared_for(tasks, lock) {
        lemma_reading_counts(&before, &after, lock, lock_after, cx, woken, woken_after);
        assert forall|j: int|
            0 <= j < tasks.len() && j != at && (#[trigger] tasks[j]).waits_to_read(
                lock_after,
            ) implies tasks[j].waits_to_read(lock) by {
            assert(parties_apart(tasks[at], tasks[j]));
            assert(tasks[j].wf(lock));
            let other = tasks[j]->Reads_0;
            assert(other.wf(lock));
        }
        lemma_cared(tasks, at, Party::Reads(after), lock, lock_after);
    }
}

/// A step towards the mutex leaves the others that wait well-formed.
proof fn lemma_others_acquiring<T>(
    tasks: Seq<Party>,
    at: int,
    after: &Acquire,
    lock: &RwLock<T>,
    lock_after: &RwLock<T>,
    cx: &Context,
    now: Nanos,
    woken: Seq<Wake>,
    woken_after: Seq<Wake>,
)
    requires
        gathered(tasks, lock),
        0 <= at < tasks.len(),
        tasks[at].seeks() matches Some(before) && !(before.stage() is Done) && acquire_steps(
            &before,
            after,
            &lock.mutex(),
            &lock_after.mutex(),
            cx,
            now,
            woken,
            woken_after,
        ),
        after.wf(&lock_after.mutex()),
        lock_after.no_readers() == lock.no_readers(),
        lock_after.no_writer() == lock.no_writer(),
        lock_after.writer() == lock.writer(),
    ensures
        forall|j: int|
            0 <= j < tasks.len() && j != at ==> (#[trigger] tasks[j]).wf(lock_after) && (
            tasks[j].seeks() matches Some(other) ==> apart(after.listener(), other.listener())) && (
            tasks[j].waits_for_mutex(lock_after) ==> tasks[j].waits_for_mutex(lock)),
{
    let before = tasks[at].seeks()->0;
    assert(tasks[at].wf(lock));
    law_others_wait_acquiring(
        &before,
        after,
        lock,
        lock_after,
        cx,
        now,
        woken,
        woken_after,
    );
    assert forall|j: int| 0 <= j < tasks.len() && j != at implies (#[trigger] tasks[j]).wf(
        lock_after,
    ) && (tasks[j].seeks() matches Some(other) ==> apart(after.listener(), other.listener())) && (
    tasks[j].waits_for_mutex(lock_after) ==> tasks[j].waits_for_mutex(lock)) by {
        assert(parties_apart(tasks[at], tasks[j]));
        if tasks[at].has(Claim::Starving) && tasks[j].has(Claim::Starving) {
            lemma_both_counted(tasks, at, j, Claim::Starving);
        }
        match tasks[j] {
            Party::Reads(other) => {
                assert(other.wf(lock));
            },
            Party::MayWrite(other) => {
                assert(other.wf(lock));
                assert(beside(&before, &other.acquire(), &lock.mutex()));
                assert(beside(after, &other.acquire(), &lock_after.mutex()));
            },
            Party::Writes(other) => {
                assert(other.wf(lock));
                if other.stage() is Lock {
                    assert(beside(&before, &other.acquire(), &lock.mutex()));
                    assert(beside(after, &other.acquire(), &lock_after.mutex()));
                }
            },
            Party::Out => {},
        }
    }
}

/// A step of a task that waits to read with the right to become a writer keeps all tasks together,
/// unless there are more readers than can be counted.
pub proof fn law_gathered_upgradable<T>(
    tasks: Seq<Party>,
    at: int,
    after: UpgradableReading,
    lock: &RwLock<T>,
    lock_after: &RwLock<T>,
    cx: &Context,
    now: Nanos,
    woken: Seq<Wake>,
    woken_after: Seq<Wake>,
)
    requires
        gathered(tasks, lock),
        lock_after.wf(),
        0 <= at < tasks.len(),
        tasks[at] matches Party::MayWrite(before) && !(before.acquire().stage() is Done)
            && acquire_steps(
            &before.acquire(),
            &after.acquire(),
            &lock.mutex(),
            &lock_after.mutex(),
            cx,
            now,
            woken,
            woken_after,
        ),
        lock_after.same_but_mutex(lock),
        lock_after.state() == lock.state() + (if after.acquire().stage() is Done {
            2int
        } else {
            0
        }),
        after.wf(lock_after),
    ensures
        gathered(tasks.update(at, Party::MayWrite(after)), lock_after),
        cared_for(tasks, lock) ==> cared_for(
            tasks.update(at, Party::MayWrite(after)),
            lock_after,
        ),
{
    let before = tasks[at]->MayWrite_0;
    let next = Party::MayWrite(after);
    assert(tasks[at].wf(lock));
    lemma_others_acquiring(
        tasks,
        at,
        &after.acquire(),
        lock,
        lock_after,
        cx,
        now,
        woken,
        woken_after,
    );
    law_exclusive(
        before.acquire().stage(),
        lock.mutex().state() as int,
        is_late(before.acquire().start(), now),
        before.acquire().notified(&lock.mutex()),
    );
    if after.acquire().stage() is Done {
        lemma_nobody_writes(tasks, lock, at);
    }
    assert forall|j: int| 0 <= j < tasks.len() && j != at implies (#[trigger] tasks[j]).wf(
        lock_after,
    ) && parties_apart(next, tasks[j]) by {}
    lemma_gathered(tasks, at, next, lock, lock_after);
    if cared_for(tasks, lock) {
        lock.lemma_parts();
        lemma_step_counts(
            &before.acquire(),
            &after.acquire(),
            &lock.mutex(),
            &lock_after.mutex(),
            cx,
            now,
            woken,
            woken_after,
        );
        lemma_cared(tasks, at, next, lock, lock_after);
    }
}

/// A step of a task that waits to write keeps all tasks together: first it acquires the mutex.
pub proof fn law_gathered_locking<T>(
    tasks: Seq<Party>,
    at: int,
    after: Writing,
    lock: &RwLock<T>,
    lock_after: &RwLock<T>,
    cx: &Context,
    now: Nanos,
    woken: Seq<Wake>,
    woken_after: Seq<Wake>,
)
    requires
        gathered(tasks, lock),
        lock_after.wf(),
        0 <= at < tasks.len(),
        tasks[at] matches Party::Writes(before) && before.stage() is Lock && acquire_steps(
            &before.acquire(),
            &after.acquire(),
            &lock.mutex(),
            &lock_after.mutex(),
            cx,
            now,
            woken,
            woken_after,
        ),
        after.acquire().wf(&lock_after.mutex()),
        after.stage() == (if after.acquire().stage() is Done {
            WriteStage::Mark
        } else {
            WriteStage::Lock
        }),
        lock_after.same_but_mutex(lock),
        lock_after.state() == lock.state(),
        after.wf(lock_after),
    ensures
        gathered(tasks.update(at, Party::Writes(after)), lock_after),
        cared_for(tasks, lock) ==> cared_for(tasks.update(at, Party::Writes(after)), lock_after),
{
    let before = tasks[at]->Writes_0;
    let next = Party::Writes(after);
    assert(tasks[at].wf(lock));
    lemma_others_acquiring(
        tasks,
        at,
        &after.acquire(),
        lock,
        lock_after,
        cx,
        now,
        woken,
        woken_after,
    );
    law_exclusive(
        before.acquire().stage(),
        lock.mutex().state() as int,
        is_late(before.acquire().start(), now),
        before.acquire().notified(&lock.mutex()),
    );
    assert forall|j: int| 0 <= j < tasks.len() && j != at implies (#[trigger] tasks[j]).wf(
        lock_after,
    ) && parties_apart(next, tasks[j]) by {}
    lemma_gathered(tasks, at, next, lock, lock_after);
    if cared_for(tasks, lock) {
        lock.lemma_parts();
        lemma_step_counts(
            &before.acquire(),
            &after.acquire(),
            &lock.mutex(),
            &lock_after.mutex(),
            cx,
            now,
            woken,
            woken_after,
        );
        lemma_cared(tasks, at, next, lock, lock_after);
    }
}

/// A step of a task that waits to write keeps all tasks together: once it has the mutex, it keeps new
/// readers out and waits for the others to leave.
pub proof fn law_gathered_writing<T>(
    tasks: Seq<Party>,
    at: int,
    after: Writing,
    lock: &RwLock<T>,
    lock_after: &RwLock<T>,
    cx: &Context,
    woken: Seq<Wake>,
    woken_after: Seq<Wake>,
)
    requires
        gathered(tasks, lock),
        lock_after.wf(),
        0 <= at < tasks.len(),
        tasks[at] matches Party::Writes(before) && {
            let (_, stage, state) = write_transition(
                before.stage(),
                lock.state() as int,
                before.notified(lock),
            );
            &&& !(before.stage() is Lock)
            &&& !(before.stage() is Done)
            &&& after.stage() == stage
            &&& lock_after.state() == state
            &&& before.tells(
                &after,
                lock.state() as int,
                &lock.no_readers(),
                &lock_after.no_readers(),
                cx,
                woken,
                woken_after,
            )
        },
        lock_after.mutex() == lock.mutex(),
        lock_after.no_writer() == lock.no_writer(),
        after.wf(lock_after),
    ensures
        gathered(tasks.update(at, Party::Writes(after)), lock_after),
        cared_for(tasks, lock) ==> cared_for(tasks.update(at, Party::Writes(after)), lock_after),
{
    let before = tasks[at]->Writes_0;
    let next = Party::Writes(after);
    assert(tasks[at].wf(lock));
    law_others_wait_writing(&before, &after, lock, lock_after, cx, woken, woken_after);
    assert forall|j: int| 0 <= j < tasks.len() && j != at implies (#[trigger] tasks[j]).wf(
        lock_after,
    ) && parties_apart(next, tasks[j]) by {
        assert(parties_apart(tasks[at], tasks[j]));
        match tasks[j] {
            Party::Reads(other) => {
                assert(other.wf(lock));
            },
            Party::MayWrite(other) => {
                assert(other.wf(lock));
            },
            Party::Writes(other) => {
                assert(other.wf(lock));
            },
            Party::Out => {},
        }
    }
    if before.stage() is Mark && lock.writer() {
        let j = lemma_some_counted(tasks, Claim::Marker);
        lemma_both_counted(tasks, at, j, Claim::Mutex);
    }
    lemma_gathered(tasks, at, next, lock, lock_after);
    if cared_for(tasks, lock) {
        lemma_writing_counts(&before, &after, lock, lock_after, cx, woken, woken_after);
        lemma_count_update(tasks, at, next, Claim::NoReaders);
        if before.notified(lock) && after.listener() is None && lock_after.no_readers().entries().len()
            > 0 {
            let j = lemma_some_counted(tasks.update(at, next), Claim::NoReaders);
            assert(tasks[j].wf(lock));
            lemma_both_counted(tasks, at, j, Claim::Mutex);
        }
        assert forall|j: int|
            0 <= j < tasks.len() && j != at && (#[trigger] tasks[j]).waits_to_write(
                lock_after,
            ) implies tasks[j].waits_to_write(lock) by {
            lemma_both_counted(tasks, at, j, Claim::Mutex);
        }
        lemma_cared(tasks, at, next, lock, lock_after);
    }
}

/// Where a task that waits for nothing takes, gives back or changes what it has of the lock, the
/// others stay well-formed.
proof fn lemma_others_turning<T>(
    tasks: Seq<Party>,
    at: int,
    after: Party,
    lock: &RwLock<T>,
    lock_after: &RwLock<T>,
)
    requires
        gathered(tasks, lock),
        0 <= at < tasks.len(),
        after.waits_not(),
        told(&lock.mutex().ops(), &lock_after.mutex().ops()),
        told(&lock.no_writer(), &lock_after.no_writer()),
        told(&lock.no_readers(), &lock_after.no_readers()) || tasks[at].has(Claim::Mutex),
        lock_after.mutex().starving() == lock.mutex().starving(),
        bit(lock_after.mutex().locked()) == bit(lock.mutex().locked()) + bit(
            after.has(Claim::Mutex),
        ) - bit(tasks[at].has(Claim::Mutex)),
        bit(lock_after.writer()) == bit(lock.writer()) + bit(after.has(Claim::Marker)) - bit(
            tasks[at].has(Claim::Marker),
        ),
    ensures
        forall|j: int|
            0 <= j < tasks.len() && j != at ==> (#[trigger] tasks[j]).wf(lock_after)
                && parties_apart(after, tasks[j]) && (tasks[j].waits_to_read(lock_after)
                ==> tasks[j].waits_to_read(lock)) && (tasks[j].waits_to_write(lock_after)
                ==> tasks[j].waits_to_write(lock)) && (tasks[j].waits_for_mutex(lock_after)
                ==> tasks[j].waits_for_mutex(lock)),
{
    law_others_wait_release(lock, lock_after);
    assert forall|j: int| 0 <= j < tasks.len() && j != at implies (#[trigger] tasks[j]).wf(
        lock_after,
    ) && parties_apart(after, tasks[j]) && (tasks[j].waits_to_read(lock_after)
        ==> tasks[j].waits_to_read(lock)) && (tasks[j].waits_to_write(lock_after)
        ==> tasks[j].waits_to_write(lock)) && (tasks[j].waits_for_mutex(lock_after)
        ==> tasks[j].waits_for_mutex(lock)) by {
        if tasks[j].seeks() is Some {
            assert((tasks[j].seeks()->0).wf(&lock.mutex()));
        }
        match tasks[j] {
            Party::Reads(other) => {
                assert(other.wf(lock));
            },
            Party::MayWrite(other) => {
                assert(other.wf(lock));
            },
            Party::Writes(other) => {
                assert(other.wf(lock));
                if !(other.stage() is Lock) {
                    lemma_counted(tasks, j, Claim::Mutex);
                    if tasks[at].has(Claim::Mutex) {
                        lemma_both_counted(tasks, at, j, Claim::Mutex);
                    }
                }
            },
            Party::Out => {},
        }
    }
}

/// A task that takes the lock at once, gives it back, or exchanges one right to it for another keeps
/// all tasks together: `try_read`, `try_upgradable_read` and `try_write`, `release_read`,
/// `release_upgradable` and `release_write`, `try_upgrade` and `upgrade`, `downgrade`,
/// `downgrade_upgradable` and `downgrade_to_upgradable`.
pub proof fn law_gathered_turn<T>(
    tasks: Seq<Party>,
    at: int,
    after: Party,
    lock: &RwLock<T>,
    lock_after: &RwLock<T>,
)
    requires
        gathered(tasks, lock),
        lock_after.wf(),
        0 <= at < tasks.len(),
        tasks[at].waits_not(),
        after.waits_not(),
        after.wf(lock_after),
        shifts(
            lock,
            lock_after,
            bit(after.has(Claim::Reader)) - bit(tasks[at].has(Claim::Reader)),
            bit(after.has(Claim::Mutex)) - bit(tasks[at].has(Claim::Mutex)),
            bit(after.has(Claim::Marker)) - bit(tasks[at].has(Claim::Marker)),
        ),
        // Nobody becomes a reader while another task writes.
        after.is_reading() && !tasks[at].is_reading() ==> !lock.writer() || !lock.mutex().locked()
            || tasks[at].has(Claim::Mutex),
        after.is_writing() ==> lock_after.readers() == 0,
    ensures
        gathered(tasks.update(at, after), lock_after),
        cared_for(tasks, lock) && wakes_next(lock, lock_after) && (lock_after.readers() == 0
            && lock.readers() > 0 ==> stirs(&lock_after.no_readers()) || tasks[at].has(
            Claim::Mutex,
        )) ==> cared_for(tasks.update(at, after), lock_after),
{
    lemma_others_turning(tasks, at, after, lock, lock_after);
    if after.is_reading() && !tasks[at].is_reading() {
        lemma_nobody_writes(tasks, lock, at);
    }
    lemma_gathered(tasks, at, after, lock, lock_after);
    if cared_for(tasks, lock) && wakes_next(lock, lock_after) && (lock_after.readers() == 0
        && lock.readers() > 0 ==> stirs(&lock_after.no_readers()) || tasks[at].has(Claim::Mutex)) {
        lock.lemma_parts();
        lemma_told_counts(&lock.no_writer(), &lock_after.no_writer());
        lemma_told_counts(&lock.no_readers(), &lock_after.no_readers());
        lemma_told_counts(&lock.mutex().ops(), &lock_after.mutex().ops());
        if tasks[at].has(Claim::Mutex) && lock.no_readers().entries().len() > 0 {
            let j = lemma_some_counted(tasks, Claim::NoReaders);
            assert(tasks[j].wf(lock));
            lemma_both_counted(tasks, at, j, Claim::Mutex);
        }
        lemma_cared(tasks, at, after, lock, lock_after);
    }
}

/// A task that gives up before it reads keeps all tasks together.
pub proof fn law_gathered_give_up_reading<T>(
    tasks: Seq<Party>,
    at: int,
    lock: &RwLock<T>,
    lock_after: &RwLock<T>,
    woken: Seq<Wake>,
    woken_after: Seq<Wake>,
)
    requires
        gathered(tasks, lock),
        lock_after.wf(),
        0 <= at < tasks.len(),
        tasks[at] matches Party::Reads(before) && !(before.stage() is Done) && (
        match before.listener() {
            Some(listener) => drops(
                &listener,
                &lock.no_writer(),
                &lock_after.no_writer(),
                woken,
                woken_after,
            ),
            None => lock_after.no_writer() == lock.no_writer() && woken_after == woken,
        }),
        lock_after.mutex() == lock.mutex(),
        lock_after.no_readers() == lock.no_readers(),
        lock_after.state() == lock.state(),
    ensures
        gathered(tasks.update(at, Party::Out), lock_after),
        !tasks[at].hands_on() && cared_for(tasks, lock) ==> cared_for(tasks.update(at, Party::Out), lock_after),
{
    let before = tasks[at]->Reads_0;
    assert(tasks[at].wf(lock));
    lock.lemma_parts();
    assert forall|j: int| 0 <= j < tasks.len() && j != at implies (#[trigger] tasks[j]).wf(
        lock_after,
    ) && parties_apart(Party::Out, tasks[j]) by {
        assert(parties_apart(tasks[at], tasks[j]));
        match tasks[j] {
            Party::Reads(other) => {
                if other.listener() is Some && before.listener() is Some {
                    law_others_stay_drop(
                        &(before.listener()->0),
                        &lock.no_writer(),
                        &lock_after.no_writer(),
                        woken,
                        woken_after,
                        &(other.listener()->0),
                    );
                }
            },
            _ => {},
        }
    }
    lemma_gathered(tasks, at, Party::Out, lock, lock_after);
    if !tasks[at].hands_on() && cared_for(tasks, lock) {
        if before.listener() is Some {
            law_drop_counts(
                &(before.listener()->0),
                &lock.no_writer(),
                &lock_after.no_writer(),
                woken,
                woken_after,
            );
        }
        assert forall|j: int|
            0 <= j < tasks.len() && j != at && (#[trigger] tasks[j]).waits_to_read(
                lock_after,
            ) implies tasks[j].waits_to_read(lock) by {
            assert(parties_apart(tasks[at], tasks[j]));
            assert(tasks[j].wf(lock));
            let other = tasks[j]->Reads_0;
            if before.listener() is Some {
                law_others_stay_drop(
                    &(before.listener()->0),
                    &lock.no_writer(),
                    &lock_after.no_writer(),
                    woken,
                    woken_after,
                    &(other.listener()->0),
                );
            }
        }
        lemma_cared(tasks, at, Party::Out, lock, lock_after);
    }
}

/// A task that gives up while it acquires the mutex keeps all tasks together.
pub proof fn law_gathered_give_up_acquiring<T>(
    tasks: Seq<Party>,
    at: int,
    lock: &RwLock<T>,
    lock_after: &RwLock<T>,
    woken: Seq<Wake>,
    woken_after: Seq<Wake>,
)
    requires
        gathered(tasks, lock),
        lock_after.wf(),
        0 <= at < tasks.len(),
        tasks[at].seeks() matches Some(before) && !(before.stage() is Done) && {
            &&& lock_after.mutex().state() == lock.mutex().state() - (
            if before.stage().starving() {
                2int
            } else {
                0
            })
            &&& match before.listener() {
                Some(listener) => drops(
                    &listener,
                    &lock.mutex().ops(),
                    &lock_after.mutex().ops(),
                    woken,
                    woken_after,
                ),
                None => lock_after.mutex().ops() == lock.mutex().ops() && woken_after == woken,
            }
        },
        lock_after.same_but_mutex(lock),
        lock_after.state() == lock.state(),
    ensures
        gathered(tasks.update(at, Party::Out), lock_after),
        !tasks[at].is_busy() && cared_for(tasks, lock) ==> cared_for(tasks.update(at, Party::Out), lock_after),
{
    let before = tasks[at].seeks()->0;
    assert(tasks[at].wf(lock));
    lock.lemma_parts();
    assert forall|j: int| 0 <= j < tasks.len() && j != at implies (#[trigger] tasks[j]).wf(
        lock_after,
    ) && parties_apart(Party::Out, tasks[j]) by {
        assert(parties_apart(tasks[at], tasks[j]));
        if tasks[j].has(Claim::Starving) {
            lemma_counted(tasks, j, Claim::Starving);
            if tasks[at].has(Claim::Starving) {
                lemma_both_counted(tasks, at, j, Claim::Starving);
            }
        }
        match tasks[j].seeks() {
            Some(other) => {
                assert(other.wf(&lock.mutex()));
                if other.listener() is Some && before.listener() is Some {
                    law_others_stay_drop(
                        &(before.listener()->0),
                        &lock.mutex().ops(),
                        &lock_after.mutex().ops(),
                        woken,
                        woken_after,
                        &(other.listener()->0),
                    );
                }
                assert(other.wf(&lock_after.mutex()));
            },
            None => {},
        }
    }
    lemma_gathered(tasks, at, Party::Out, lock, lock_after);
    if !tasks[at].is_busy() && cared_for(tasks, lock) {
        if before.listener() is Some {
            law_drop_counts(
                &(before.listener()->0),
                &lock.mutex().ops(),
                &lock_after.mutex().ops(),
                woken,
                woken_after,
            );
        }
        assert forall|j: int|
            0 <= j < tasks.len() && j != at && (#[trigger] tasks[j]).waits_for_mutex(
                lock_after,
            ) implies tasks[j].waits_for_mutex(lock) by {
            assert(parties_apart(tasks[at], tasks[j]));
            assert(tasks[j].wf(lock));
            let other = tasks[j].seeks()->0;
            if before.listener() is Some {
                law_others_stay_drop(
                    &(before.listener()->0),
                    &lock.mutex().ops(),
                    &lock_after.mutex().ops(),
                    woken,
                    woken_after,
                    &(other.listener()->0),
                );
            }
        }
        lemma_cared(tasks, at, Party::Out, lock, lock_after);
    }
}

/// A task that gives up once it has the mutex, but before it writes, keeps all tasks together.
pub proof fn law_gathered_back_out<T>(
    tasks: Seq<Party>,
    at: int,
    lock: &RwLock<T>,
    lock_after: &RwLock<T>,
    woken: Seq<Wake>,
    heard: Seq<Wake>,
    let_in: Seq<Wake>,
    woken_after: Seq<Wake>,
)
    requires
        gathered(tasks, lock),
        lock_after.wf(),
        0 <= at < tasks.len(),
        tasks[at] matches Party::Writes(before) && !(before.stage() is Done) && tasks[at].has(
            Claim::Marker,
        ) && before.backs_out(lock, lock_after, woken, heard, let_in, woken_after),
        lock_after.readers() == lock.readers(),
        !lock_after.writer(),
        lock_after.mutex().state() == lock.mutex().state() - 1,
    ensures
        gathered(tasks.update(at, Party::Out), lock_after),
        cared_for(tasks, lock) ==> cared_for(tasks.update(at, Party::Out), lock_after),
{
    lemma_counted(tasks, at, Claim::Mutex);
    lemma_counted(tasks, at, Claim::Marker);
    lemma_others_turning(tasks, at, Party::Out, lock, lock_after);
    lemma_gathered(tasks, at, Party::Out, lock, lock_after);
    if cared_for(tasks, lock) {
        let before = tasks[at]->Writes_0;
        assert(tasks[at].wf(lock));
        lock.lemma_parts();
        law_notifies(&lock.no_writer(), &lock_after.no_writer(), 1, heard, let_in);
        law_notifies(
            &lock.mutex().ops(),
            &lock_after.mutex().ops(),
            1,
            let_in,
            woken_after,
        );
        if before.listener() is Some {
            law_drop_counts(
                &(before.listener()->0),
                &lock.no_readers(),
                &lock_after.no_readers(),
                woken,
                heard,
            );
        }
        lemma_count_update(tasks, at, Party::Out, Claim::NoReaders);
        if lock_after.no_readers().entries().len() > 0 {
            let j = lemma_some_counted(tasks.update(at, Party::Out), Claim::NoReaders);
            assert(tasks[j].wf(lock));
            lemma_both_counted(tasks, at, j, Claim::Mutex);
        }
        lemma_cared(tasks, at, Party::Out, lock, lock_after);
    }
}

} // verus!
