//! Who drives the reactor: a thread of its own, or a thread that blocks on a future.

use vstd::prelude::*;
use crate::platform::lock::mutex::{is_late, PATIENCE};
use crate::task::Nanos;

verus! {

/// After so many naps the thread insists on the reactor.
pub const MAX_NAPS: u64 = 10;

/// How long the thread naps, in microseconds, after so many naps without anything to do.
pub open spec fn nap_micros(sleeps: u64) -> u64 {
    if sleeps == 0 {
        50
    } else if sleeps == 1 {
        75
    } else if sleeps == 2 {
        100
    } else if sleeps == 3 {
        250
    } else if sleeps == 4 {
        500
    } else if sleeps == 5 {
        750
    } else if sleeps == 6 {
        1000
    } else if sleeps == 7 {
        2500
    } else if sleeps == 8 {
        5000
    } else {
        10_000
    }
}

/// How the thread gets at the reactor.
#[derive(Clone, Copy, Debug, PartialEq, Eq, Structural)]
pub enum Access {
    /// It waits until nobody else has it.
    Lock,
    /// It takes it if nobody else has it.
    TryLock,
    /// It leaves it: somebody else has driven it in the meantime.
    Leave,
}

/// The thread that drives the reactor when nobody else does.
pub struct IoThread {
    last_tick: usize,
    sleeps: u64,
}

impl IoThread {
    /// The round of the reactor that was seen last.
    pub closed spec fn last_tick(&self) -> usize {
        self.last_tick
    }

    /// How many naps there were without anything to do.
    pub closed spec fn sleeps(&self) -> u64 {
        self.sleeps
    }

    pub fn new() -> (r: Self)
        ensures
            r.last_tick() == 0,
            r.sleeps() == 0,
    {
        IoThread { last_tick: 0, sleeps: 0 }
    }

    /// Begins a cycle, in which the reactor is in the round `tick`.
    pub fn begin(&mut self, tick: usize) -> (r: Access)
        ensures
            final(self).last_tick() == tick,
            final(self).sleeps() == old(self).sleeps(),
            r == (if old(self).last_tick() != tick {
                Access::Leave
            } else if old(self).sleeps() >= MAX_NAPS {
                Access::Lock
            } else {
                Access::TryLock
            }),
    {
        if self.last_tick == tick {
            if self.sleeps >= MAX_NAPS {
                Access::Lock
            } else {
                Access::TryLock
            }
        } else {
            self.last_tick = tick;
            Access::Leave
        }
    }

    /// The thread has driven the reactor, which is in the round `tick` now.
    pub fn reacted(&mut self, tick: usize)
        ensures
            final(self).last_tick() == tick,
            final(self).sleeps() == 0,
    {
        self.last_tick = tick;
        self.sleeps = 0;
    }

    /// How long to nap, in microseconds, if at all: only while `blocked` threads block on a future,
    /// who drive the reactor too.
    pub fn nap(&self, blocked: usize) -> (r: Option<u64>)
        ensures
            r == (if blocked > 0 {
                Some(nap_micros(self.sleeps()))
            } else {
                None
            }),
    {
        if blocked == 0 {
            return None;
        }
        let micros: u64 = match self.sleeps {
            0 => 50,
            1 => 75,
            2 => 100,
            3 => 250,
            4 => 500,
            5 => 750,
            6 => 1000,
            7 => 2500,
            8 => 5000,
            _ => 10_000,
        };
        Some(micros)
    }

    /// The nap is over; it was cut short if the thread was notified.
    pub fn woke(&mut self, notified: bool, tick: usize)
        requires
            old(self).sleeps() < u64::MAX,
        ensures
            notified ==> final(self).last_tick() == tick && final(self).sleeps() == 0,
            !notified ==> final(self).last_tick() == old(self).last_tick() && final(self).sleeps()
                == old(self).sleeps() + 1,
    {
        if notified {
            self.last_tick = tick;
            self.sleeps = 0;
        } else {
            self.sleeps = self.sleeps + 1;
        }
    }
}

/// What a thread that blocks on a future does next.
#[derive(Clone, Copy, Debug, PartialEq, Eq, Structural)]
pub enum BlockStep {
    /// It polls the future.
    Poll,
    /// It sees whether it was notified, without waiting.
    Check,
    /// It tries to take the reactor.
    TryLock,
    /// It drives the reactor without waiting, and then gives it back.
    ReactOnce,
    /// It drives the reactor until something happens.
    React,
    /// It gives the reactor back.
    Release,
    /// It gives the reactor back, and wakes up the thread that drives it when nobody else does.
    HandOver,
    /// It waits until it is notified.
    Park,
    /// The future is done.
    Return,
}

/// What came of the last step.
#[derive(Clone, Copy, Debug, PartialEq, Eq, Structural)]
pub enum BlockEvent {
    /// The future is done, the thread was notified, or the reactor was taken.
    Yes,
    /// It is not, it was not.
    No,
    /// The step was made.
    Made,
}

/// How far a thread that blocks on a future has come.
#[derive(Clone, Copy, Debug, PartialEq, Eq, Structural)]
pub enum BlockStage {
    Polling,
    /// The future was pending: has the thread been notified?
    Checking,
    /// It was notified: may it drive the reactor once in passing?
    Passing,
    /// It drives the reactor once in passing.
    PassingReact,
    /// It was not notified: may it drive the reactor?
    Taking,
    /// It has the reactor: has it been notified in the meantime?
    Driving,
    /// It drives the reactor.
    Reacting,
    /// It has driven the reactor: has it been notified?
    Driven,
    /// It was notified, and gives the reactor back.
    Releasing,
    /// It has driven the reactor for long enough, and hands it over.
    HandingOver,
    /// It has handed the reactor over, and waits.
    HandedOver,
    /// It waits.
    Parked,
    Done,
}

/// The stage that follows, where `late` says that the thread has driven the reactor for long
/// enough.
pub open spec fn next_stage(stage: BlockStage, event: BlockEvent, late: bool) -> BlockStage {
    match (stage, event) {
        (BlockStage::Polling, BlockEvent::Yes) => BlockStage::Done,
        (BlockStage::Polling, _) => BlockStage::Checking,
        (BlockStage::Checking, BlockEvent::Yes) => BlockStage::Passing,
        (BlockStage::Checking, _) => BlockStage::Taking,
        (BlockStage::Passing, BlockEvent::Yes) => BlockStage::PassingReact,
        (BlockStage::Passing, _) => BlockStage::Polling,
        (BlockStage::PassingReact, _) => BlockStage::Polling,
        (BlockStage::Taking, BlockEvent::Yes) => BlockStage::Driving,
        (BlockStage::Taking, _) => BlockStage::Parked,
        (BlockStage::Driving, BlockEvent::Yes) => BlockStage::Releasing,
        (BlockStage::Driving, _) => BlockStage::Reacting,
        (BlockStage::Reacting, _) => BlockStage::Driven,
        (BlockStage::Driven, BlockEvent::Yes) => BlockStage::Releasing,
        (BlockStage::Driven, _) => if late {
            BlockStage::HandingOver
        } else {
            BlockStage::Driving
        },
        (BlockStage::Releasing, _) => BlockStage::Polling,
        (BlockStage::HandingOver, _) => BlockStage::HandedOver,
        (BlockStage::HandedOver, _) => BlockStage::Polling,
        (BlockStage::Parked, _) => BlockStage::Polling,
        (BlockStage::Done, _) => BlockStage::Done,
    }
}

/// What a thread does in a stage.
pub open spec fn step_of(stage: BlockStage) -> BlockStep {
    match stage {
        BlockStage::Polling => BlockStep::Poll,
        BlockStage::Checking => BlockStep::Check,
        BlockStage::Passing => BlockStep::TryLock,
        BlockStage::PassingReact => BlockStep::ReactOnce,
        BlockStage::Taking => BlockStep::TryLock,
        BlockStage::Driving => BlockStep::Check,
        BlockStage::Reacting => BlockStep::React,
        BlockStage::Driven => BlockStep::Check,
        BlockStage::Releasing => BlockStep::Release,
        BlockStage::HandingOver => BlockStep::HandOver,
        BlockStage::HandedOver => BlockStep::Park,
        BlockStage::Parked => BlockStep::Park,
        BlockStage::Done => BlockStep::Return,
    }
}

/// The thread has the reactor in this stage.
pub open spec fn has_reactor(stage: BlockStage) -> bool {
    ||| stage is PassingReact
    ||| stage is Driving
    ||| stage is Reacting
    ||| stage is Driven
    ||| stage is Releasing
    ||| stage is HandingOver
}

/// The thread is marked as one that may wait in the reactor: from taking it until it is notified,
/// or until it polls the future again.
pub open spec fn may_wait(stage: BlockStage) -> bool {
    ||| stage is Driving
    ||| stage is Reacting
    ||| stage is Driven
    ||| stage is HandingOver
    ||| stage is HandedOver
}

/// A thread that blocks on a future.
pub struct BlockOn {
    stage: BlockStage,
    start: Nanos,
}

impl BlockOn {
    pub closed spec fn stage(&self) -> BlockStage {
        self.stage
    }

    /// When the thread took the reactor.
    pub closed spec fn start(&self) -> Nanos {
        self.start
    }

    /// Begins to block on a future.
    pub fn new() -> (r: Self)
        ensures
            r.stage() is Polling,
            r.start() == 0,
    {
        BlockOn { stage: BlockStage::Polling, start: 0 }
    }

    /// What the thread does next.
    pub fn step(&self) -> (r: BlockStep)
        ensures
            r == step_of(self.stage()),
    {
        match self.stage {
            BlockStage::Polling => BlockStep::Poll,
            BlockStage::Checking => BlockStep::Check,
            BlockStage::Passing => BlockStep::TryLock,
            BlockStage::PassingReact => BlockStep::ReactOnce,
            BlockStage::Taking => BlockStep::TryLock,
            BlockStage::Driving => BlockStep::Check,
            BlockStage::Reacting => BlockStep::React,
            BlockStage::Driven => BlockStep::Check,
            BlockStage::Releasing => BlockStep::Release,
            BlockStage::HandingOver => BlockStep::HandOver,
            BlockStage::HandedOver => BlockStep::Park,
            BlockStage::Parked => BlockStep::Park,
            BlockStage::Done => BlockStep::Return,
        }
    }

    /// Notes what came of the step, at the time `now`.
    pub fn done(&mut self, event: BlockEvent, now: Nanos)
        ensures
            final(self).stage() == next_stage(
                old(self).stage(),
                event,
                is_late(old(self).start(), now),
            ),
            final(self).start() == (if old(self).stage() is Taking && event is Yes {
                now
            } else {
                old(self).start()
            }),
    {
        let yes = match event {
            BlockEvent::Yes => true,
            _ => false,
        };
        let late = now > self.start && now - self.start > PATIENCE;
        if yes {
            match self.stage {
                BlockStage::Taking => {
                    self.start = now;
                },
                _ => {},
            }
        }
        self.stage = match self.stage {
            BlockStage::Polling => if yes {
                BlockStage::Done
            } else {
                BlockStage::Checking
            },
            BlockStage::Checking => if yes {
                BlockStage::Passing
            } else {
                BlockStage::Taking
            },
            BlockStage::Passing => if yes {
                BlockStage::PassingReact
            } else {
                BlockStage::Polling
            },
            BlockStage::PassingReact => BlockStage::Polling,
            BlockStage::Taking => if yes {
                BlockStage::Driving
            } else {
                BlockStage::Parked
            },
            BlockStage::Driving => if yes {
                BlockStage::Releasing
            } else {
                BlockStage::Reacting
            },
            BlockStage::Reacting => BlockStage::Driven,
            BlockStage::Driven => if yes {
                BlockStage::Releasing
            } else if late {
                BlockStage::HandingOver
            } else {
                BlockStage::Driving
            },
            BlockStage::Releasing => BlockStage::Polling,
            BlockStage::HandingOver => BlockStage::HandedOver,
            BlockStage::HandedOver => BlockStage::Polling,
            BlockStage::Parked => BlockStage::Polling,
            BlockStage::Done => BlockStage::Done,
        };
    }

    /// Whether the thread is marked as one that drives the reactor, and so need not be told of a
    /// notification that comes from there.
    pub fn drives(&self) -> (r: bool)
        ensures
            r == (may_wait(self.stage()) || self.stage() is PassingReact),
    {
        match self.stage {
            BlockStage::PassingReact => true,
            _ => self.blocks(),
        }
    }

    /// Whether the thread is marked as one that may wait in the reactor.
    pub fn blocks(&self) -> (r: bool)
        ensures
            r == may_wait(self.stage()),
    {
        match self.stage {
            BlockStage::Driving
            | BlockStage::Reacting
            | BlockStage::Driven
            | BlockStage::HandingOver
            | BlockStage::HandedOver => true,
            _ => false,
        }
    }
}

/// Whether the poller is to be notified when the thread is: if it was not notified before, and may
/// wait in the reactor, and the notification does not come from there.
pub fn notifies_reactor(unparked: bool, drives: bool, blocks: bool) -> (r: bool)
    ensures
        r == (unparked && !drives && blocks),
{
    unparked && !drives && blocks
}

/// The thread has the reactor exactly from taking it until giving it back: it never waits or polls
/// the future with it. While it drives the reactor, it is marked as one that may wait there, so
/// that a notification from elsewhere reaches it.
pub proof fn law_reactor_given_back(stage: BlockStage, event: BlockEvent, late: bool)
    ensures
        step_of(stage) is Poll || step_of(stage) is Park || step_of(stage) is Return
            ==> !has_reactor(stage),
        step_of(stage) is React || step_of(stage) is ReactOnce ==> has_reactor(stage),
        step_of(stage) is React ==> may_wait(stage),
        !has_reactor(stage) && has_reactor(next_stage(stage, event, late)) ==> step_of(stage)
            is TryLock && event is Yes,
        has_reactor(stage) && !has_reactor(next_stage(stage, event, late)) ==> step_of(stage)
            is ReactOnce || step_of(stage) is Release || step_of(stage) is HandOver,
{
}

/// The thread was notified, and is to poll the future again before it waits for anything.
pub open spec fn is_called(stage: BlockStage) -> bool {
    ||| stage is Polling
    ||| stage is Passing
    ||| stage is PassingReact
    ||| stage is Releasing
}

/// No notification is slept through: once the thread finds that it was notified, or has waited, it
/// polls the future again after at most two more steps, in which it waits for nothing.
pub proof fn law_called_polls(stage: BlockStage, event: BlockEvent, late: bool)
    ensures
        step_of(stage) is Check && event is Yes ==> is_called(next_stage(stage, event, late)),
        step_of(stage) is Park ==> step_of(next_stage(stage, event, late)) is Poll,
        is_called(stage) ==> !(step_of(stage) is Park) && !(step_of(stage) is React) && !(step_of(
            stage,
        ) is Check),
        is_called(stage) && !(step_of(stage) is Poll) ==> is_called(next_stage(stage, event, late)),
        forall|e: BlockEvent, l: bool|
            is_called(stage) && !(step_of(stage) is Poll) ==> step_of(
                next_stage(stage, event, late),
            ) is Poll || step_of(
                #[trigger] next_stage(next_stage(stage, event, late), e, l),
            ) is Poll,
{
}

/// The thread waits only once it has found that it was not notified: it parks only where it could
/// not take the reactor or has driven it for long enough, and it waits in the reactor only if it was
/// not notified after it took it and after each time that it waited there.
pub proof fn law_waits_unnotified(stage: BlockStage, event: BlockEvent, late: bool)
    ensures
        step_of(next_stage(stage, event, late)) is React ==> step_of(stage) is Check && !(event
            is Yes) && has_reactor(stage),
        step_of(stage) is React ==> step_of(next_stage(stage, event, late)) is Check,
        step_of(next_stage(stage, event, late)) is HandOver <==> stage is Driven && !(event is Yes)
            && late,
        step_of(next_stage(stage, event, late)) is Park ==> stage is Taking && !(event is Yes)
            || step_of(stage) is HandOver,
        next_stage(stage, event, late) is Taking ==> stage is Checking && !(event is Yes),
        step_of(stage) is TryLock && !(event is Yes) && !is_called(stage) ==> step_of(
            next_stage(stage, event, late),
        ) is Park,
        step_of(stage) is TryLock && event is Yes ==> has_reactor(next_stage(stage, event, late)),
        step_of(stage) is HandOver ==> step_of(next_stage(stage, event, late)) is Park,
{
}

/// The thread goes on until the future is done, and then no longer: it polls the future, and if that
/// is pending, it looks whether it was notified.
pub proof fn law_blocks_until_done(stage: BlockStage, event: BlockEvent, late: bool)
    ensures
        step_of(next_stage(stage, event, late)) is Return <==> step_of(stage) is Poll && event
            is Yes || step_of(stage) is Return,
        step_of(stage) is Poll && !(event is Yes) ==> step_of(next_stage(stage, event, late))
            is Check && !has_reactor(next_stage(stage, event, late)),
        step_of(stage) is Release ==> step_of(next_stage(stage, event, late)) is Poll,
{
}

/// The naps become longer and longer, from a twentieth of a millisecond up to ten milliseconds.
pub proof fn law_naps(sleeps: u64, more: u64)
    requires
        sleeps <= more,
    ensures
        nap_micros(sleeps) <= nap_micros(more),
        50 <= nap_micros(sleeps) <= 10_000,
        sleeps < more && sleeps < MAX_NAPS - 1 ==> nap_micros(sleeps) < nap_micros(more),
        nap_micros(0) == 50,
        sleeps >= MAX_NAPS - 1 ==> nap_micros(sleeps) == 10_000,
{
}

} // verus!
