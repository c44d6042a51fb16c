//! Waiting with `epoll`.

use vstd::prelude::*;
use crate::net::polling::{Event, NOTIFY_KEY};
use crate::task::Nanos;

verus! {

/// Reads `libc::EPOLLIN`, which is 1.
#[verifier::external_body]
fn epollin() -> (r: i32)
    ensures
        r == 0x1,
{
    libc::EPOLLIN
}

/// Reads `libc::EPOLLPRI`, which is 2.
#[verifier::external_body]
fn epollpri() -> (r: i32)
    ensures
        r == 0x2,
{
    libc::EPOLLPRI
}

/// Reads `libc::EPOLLOUT`, which is 4.
#[verifier::external_body]
fn epollout() -> (r: i32)
    ensures
        r == 0x4,
{
    libc::EPOLLOUT
}

/// Reads `libc::EPOLLERR`, which is 8.
#[verifier::external_body]
fn epollerr() -> (r: i32)
    ensures
        r == 0x8,
{
    libc::EPOLLERR
}

/// Reads `libc::EPOLLHUP`, which is 16.
#[verifier::external_body]
fn epollhup() -> (r: i32)
    ensures
        r == 0x10,
{
    libc::EPOLLHUP
}

/// Reads `libc::EPOLLRDHUP`, which is 8192.
#[verifier::external_body]
fn epollrdhup() -> (r: i32)
    ensures
        r == 0x2000,
{
    libc::EPOLLRDHUP
}

/// Reads `libc::EPOLLONESHOT`, which is 2 to the 30th.
#[verifier::external_body]
fn epolloneshot() -> (r: i32)
    ensures
        r == 0x4000_0000,
{
    libc::EPOLLONESHOT
}

/// What counts as readable: input, urgent input, an error, and the other side hanging up.
pub const READ_FLAGS: i32 = 0x201b;

/// What counts as writable: output, an error, and the other side hanging up.
pub const WRITE_FLAGS: i32 = 0x1c;

/// A registration that holds for one event.
pub const ONESHOT: i32 = 0x4000_0000;

fn read_flags() -> (r: i32)
    ensures
        r == READ_FLAGS,
{
    assert(0x1i32 | 0x2000 | 0x10 | 0x8 | 0x2 == 0x201b) by (bit_vector);
    epollin() | epollrdhup() | epollhup() | epollerr() | epollpri()
}

fn write_flags() -> (r: i32)
    ensures
        r == WRITE_FLAGS,
{
    assert(0x4i32 | 0x10 | 0x8 == 0x1c) by (bit_vector);
    epollout() | epollhup() | epollerr()
}

/// The flags for an interest.
pub open spec fn flags_of(readable: bool, writable: bool) -> i32 {
    ONESHOT | (if readable {
        READ_FLAGS
    } else {
        0
    }) | (if writable {
        WRITE_FLAGS
    } else {
        0
    })
}

/// The flags to register an interest with.
pub fn interest_flags(ev: &Event) -> (r: i32)
    ensures
        r == flags_of(ev.readable, ev.writable),
        // Input, urgent input and the other side closing its half: for those who read.
        (r & 0x1 != 0) == ev.readable,
        (r & 0x2 != 0) == ev.readable,
        (r & 0x2000 != 0) == ev.readable,
        // Output: for those who write.
        (r & 0x4 != 0) == ev.writable,
        // Errors and hanging up: for both.
        (r & 0x8 != 0) == (ev.readable || ev.writable),
        (r & 0x10 != 0) == (ev.readable || ev.writable),
        // It holds for one event, and there is nothing else in it.
        r & 0x4000_0000 != 0,
        r & !0x4000_201fi32 == 0,
{
    let mut flags: i32 = epolloneshot();
    proof {
        lemma_or_zero(flags);
        lemma_or_zero(flags | READ_FLAGS);
        law_interest_covers(ev.readable, ev.writable);
    }
    if ev.readable {
        flags = flags | read_flags();
    }
    if ev.writable {
        flags = flags | write_flags();
    }
    flags
}

proof fn lemma_or_zero(x: i32)
    by (bit_vector)
    ensures
        x | 0 == x,
{
}

/// What a reported event says.
pub fn from_epoll(key: usize, flags: i32) -> (r: Event)
    ensures
        r == (Event {
            key,
            readable: flags & READ_FLAGS != 0,
            writable: flags & WRITE_FLAGS != 0,
        }),
        r.readable == (flags & 0x1 != 0 || flags & 0x2 != 0 || flags & 0x8 != 0 || flags & 0x10 != 0
            || flags & 0x2000 != 0),
        r.writable == (flags & 0x4 != 0 || flags & 0x8 != 0 || flags & 0x10 != 0),
{
    proof {
        law_reported(flags);
    }
    Event { key, readable: (flags & read_flags()) != 0, writable: (flags & write_flags()) != 0 }
}

/// How many milliseconds a span of time takes, rounded up, as far as the system counts.
pub open spec fn millis_up(t: Nanos) -> int {
    let ms = (t + 999_999) / 1_000_000;
    if ms < i32::MAX {
        ms
    } else {
        i32::MAX as int
    }
}

/// How many milliseconds to wait: -1 is for ever. Where there is a timer, it ends the wait.
pub open spec fn wait_ms(has_timer: bool, timeout: Option<Nanos>) -> int {
    match timeout {
        Some(t) => if t == 0 {
            0
        } else if has_timer {
            -1
        } else {
            millis_up(t)
        },
        None => -1,
    }
}

/// How many milliseconds to wait: -1 is for ever. Where there is a timer, it ends the wait.
pub fn timeout_ms(has_timer: bool, timeout: Option<Nanos>) -> (r: i32)
    ensures
        r == wait_ms(has_timer, timeout),
{
    match timeout {
        Some(t) => {
            if t == 0 {
                return 0;
            }
            if has_timer {
                return -1;
            }
            let whole: u128 = t / 1_000_000;
            let mut ms: i32 = if whole <= i32::MAX as u128 {
                whole as i32
            } else {
                i32::MAX
            };
            if (ms as u128) * 1_000_000 < t && ms < i32::MAX {
                ms = ms + 1;
            }
            ms
        },
        None => -1,
    }
}

/// What the timer is set to: seconds and nanoseconds, both zero to switch it off.
pub fn timer_spec(timeout: Option<Nanos>) -> (r: (u128, u32))
    ensures
        r.1 < 1_000_000_000,
        r.0 * 1_000_000_000 + r.1 == (match timeout {
            Some(t) => t as int,
            None => 0,
        }),
{
    match timeout {
        Some(t) => (t / 1_000_000_000, (t % 1_000_000_000) as u32),
        None => (0, 0),
    }
}

/// A call that sets up a poller.
#[derive(Clone, Copy, Debug, PartialEq, Eq, Structural)]
pub enum SetupCall {
    /// Create the queue of events, in the new way.
    Create1,
    /// Create it in the old way.
    Create,
    /// Ask for the flags of the queue.
    GetFd(i32),
    /// Set the flags of the queue: these, and to close it when another program is run.
    SetFd(i32, i32),
    /// Create what interrupts a wait.
    EventFd,
    /// Create a timer.
    TimerFd,
    /// Add to the queue, with this interest.
    Add(i32, Event),
    /// The poller is ready.
    Ready,
    /// It failed with this error of the system.
    Failed(i32),
}

/// How far the setup of a poller has come.
pub struct Setup {
    pub call: SetupCall,
    pub epoll_fd: i32,
    pub event_fd: i32,
    pub timer_fd: Option<i32>,
    /// All parts of the poller are there: if the setup fails now, an end is made of it.
    pub made: bool,
}

impl Setup {
    /// The call that is to be made.
    pub open spec fn call(&self) -> SetupCall {
        self.call
    }

    pub fn new() -> (r: Self)
        ensures
            r.call() is Create1,
            r.timer_fd is None,
            !r.made,
    {
        Setup {
            call: SetupCall::Create1,
            epoll_fd: -1,
            event_fd: -1,
            timer_fd: None,
            made: false,
        }
    }

    /// The call that is to be made.
    pub fn next(&self) -> (r: SetupCall)
        ensures
            r == self.call(),
    {
        self.call
    }

    /// Where the call leads of which `res` came.
    pub open spec fn leads(&self, res: Result<i32, i32>, no_such_call: i32, after: &Self) -> bool {
        match (self.call(), res) {
            (SetupCall::Create1, Ok(fd)) | (SetupCall::Create, Ok(fd)) => {
                &&& after.epoll_fd == fd
                &&& after.event_fd == self.event_fd
                &&& after.timer_fd == self.timer_fd
                &&& after.call() == (if self.call() is Create {
                    SetupCall::GetFd(fd)
                } else {
                    SetupCall::EventFd
                })
            },
            (SetupCall::Create1, Err(error)) => {
                &&& after.same_fds(self)
                &&& after.call() == (if error == no_such_call {
                    SetupCall::Create
                } else {
                    SetupCall::Failed(error)
                })
            },
            (SetupCall::GetFd(fd), Ok(flags)) => {
                &&& after.same_fds(self)
                &&& after.call() == SetupCall::SetFd(fd, flags)
            },
            (SetupCall::GetFd(_), Err(_)) | (SetupCall::SetFd(..), _) => {
                &&& after.same_fds(self)
                &&& after.call() is EventFd
            },
            (SetupCall::EventFd, Ok(fd)) => {
                &&& after.event_fd == fd
                &&& after.epoll_fd == self.epoll_fd
                &&& after.timer_fd == self.timer_fd
                &&& after.call() is TimerFd
            },
            (SetupCall::TimerFd, res) => {
                &&& after.epoll_fd == self.epoll_fd
                &&& after.event_fd == self.event_fd
                &&& after.timer_fd == (match res {
                    Ok(fd) => Some(fd),
                    Err(_) => None,
                })
                &&& after.call() == (match res {
                    Ok(fd) => SetupCall::Add(
                        fd,
                        Event { key: NOTIFY_KEY, readable: false, writable: false },
                    ),
                    Err(_) => SetupCall::Add(
                        self.event_fd,
                        Event { key: NOTIFY_KEY, readable: true, writable: false },
                    ),
                })
            },
            (SetupCall::Add(_, interest), Ok(_)) => {
                &&& after.same_fds(self)
                &&& after.call() == (if interest.readable {
                    SetupCall::Ready
                } else {
                    SetupCall::Add(
                        self.event_fd,
                        Event { key: NOTIFY_KEY, readable: true, writable: false },
                    )
                })
            },
            (_, Err(error)) => {
                &&& after.same_fds(self)
                &&& after.call() == SetupCall::Failed(error)
            },
            _ => true,
        }
    }

    /// Notes what came of the call: a number, or an error of the system. The number of the error
    /// that says that there is no such call is `no_such_call`.
    pub fn done(&mut self, res: Result<i32, i32>, no_such_call: i32)
        requires
            !(old(self).call() is Ready),
            !(old(self).call() is Failed),
        ensures
            final(self).made == (old(self).made || old(self).call() is TimerFd),
            // It fails only because a call failed.
            final(self).call() matches SetupCall::Failed(error) ==> res == Err::<i32, i32>(error),
            // What interrupts a wait is listened to before the poller is ready, and the timer is in
            // the queue before that.
            final(self).call() is Ready ==> (old(self).call() matches SetupCall::Add(_, ev)
                && ev.readable) && res is Ok,
            final(self).call() matches SetupCall::Add(fd, ev) ==> ev.key == NOTIFY_KEY
                && !ev.writable && (if ev.readable {
                fd == final(self).event_fd
            } else {
                final(self).timer_fd == Some(fd)
            }),
            old(self).leads(res, no_such_call, final(self)),
    {
        match (self.call, res) {
            (SetupCall::Create1, Ok(fd)) => {
                self.epoll_fd = fd;
                self.call = SetupCall::EventFd;
            },
            (SetupCall::Create1, Err(error)) => {
                self.call = if error == no_such_call {
                    SetupCall::Create
                } else {
                    SetupCall::Failed(error)
                };
            },
            (SetupCall::Create, Ok(fd)) => {
                self.epoll_fd = fd;
                self.call = SetupCall::GetFd(fd);
            },
            (SetupCall::GetFd(fd), Ok(flags)) => {
                self.call = SetupCall::SetFd(fd, flags);
            },
            (SetupCall::GetFd(_), Err(_)) | (SetupCall::SetFd(_, _), _) => {
                self.call = SetupCall::EventFd;
            },
            (SetupCall::EventFd, Ok(fd)) => {
                self.event_fd = fd;
                self.call = SetupCall::TimerFd;
            },
            (SetupCall::TimerFd, Ok(fd)) => {
                self.made = true;
                self.timer_fd = Some(fd);
                self.call = SetupCall::Add(fd, Event::none(NOTIFY_KEY));
            },
            (SetupCall::TimerFd, Err(_)) => {
                self.made = true;
                self.timer_fd = None;
                self.call = SetupCall::Add(self.event_fd, Event::readable(NOTIFY_KEY));
            },
            (SetupCall::Add(_, interest), Ok(_)) => {
                self.call = if interest.readable {
                    SetupCall::Ready
                } else {
                    SetupCall::Add(self.event_fd, Event::readable(NOTIFY_KEY))
                };
            },
            (_, Err(error)) => {
                self.call = SetupCall::Failed(error);
            },
            _ => {},
        }
    }

    pub open spec fn same_fds(&self, other: &Self) -> bool {
        &&& self.epoll_fd == other.epoll_fd
        &&& self.event_fd == other.event_fd
        &&& self.timer_fd == other.timer_fd
    }
}

/// A call that makes an end of a poller.
#[derive(Clone, Copy, Debug, PartialEq, Eq, Structural)]
pub enum CloseCall {
    /// Take it out of the queue.
    Delete(i32),
    Close(i32),
}

impl Setup {
    /// The calls that make an end of the poller, in their order. Whatever comes of one, the next is
    /// made.
    pub fn teardown(&self) -> (r: Vec<CloseCall>)
        ensures
            r@ == (match self.timer_fd {
                Some(fd) => seq![CloseCall::Delete(fd), CloseCall::Close(fd)],
                None => seq![],
            }) + seq![
                CloseCall::Delete(self.event_fd),
                CloseCall::Close(self.event_fd),
                CloseCall::Close(self.epoll_fd),
            ],
    {
        let mut calls: Vec<CloseCall> = Vec::new();
        if let Some(fd) = self.timer_fd {
            calls.push(CloseCall::Delete(fd));
            calls.push(CloseCall::Close(fd));
        }
        calls.push(CloseCall::Delete(self.event_fd));
        calls.push(CloseCall::Close(self.event_fd));
        calls.push(CloseCall::Close(self.epoll_fd));
        calls
    }
}

/// A call that is part of a wait.
#[derive(Clone, Copy, Debug, PartialEq, Eq, Structural)]
pub enum WaitCall {
    /// Set the timer to seconds and nanoseconds.
    SetTimer(i32, u128, u32),
    /// Change the interest in something that is in the queue.
    Modify(i32, Event),
    /// Wait for so many milliseconds.
    Wait(i32),
    /// Read what interrupted the wait, if it was interrupted.
    Drain(i32),
    /// So many events were reported.
    Ready(i32),
    /// The wait failed with this error of the system.
    Failed(i32),
}

/// The call after the first one of a wait. What interrupts a wait is listened to again after it,
/// and the timer before it.
pub open spec fn next_call(wait: &Wait, res: Result<i32, i32>) -> WaitCall {
    match (wait.call, res) {
        (WaitCall::Drain(fd), _) => WaitCall::Modify(
            fd,
            Event { key: NOTIFY_KEY, readable: true, writable: false },
        ),
        (_, Err(error)) => WaitCall::Failed(error),
        (WaitCall::SetTimer(fd, _, _), _) => WaitCall::Modify(
            fd,
            Event { key: NOTIFY_KEY, readable: true, writable: false },
        ),
        (WaitCall::Wait(_), _) => WaitCall::Drain(wait.event_fd),
        (_, _) => match wait.happened {
            None => WaitCall::Wait(wait.ms),
            Some(n) => WaitCall::Ready(n),
        },
    }
}

/// The wait after a call of which this came.
pub open spec fn stepped(wait: &Wait, res: Result<i32, i32>) -> Wait {
    Wait {
        call: next_call(wait, res),
        happened: match (wait.call, res) {
            (WaitCall::Wait(_), Ok(n)) => Some(n),
            _ => wait.happened,
        },
        event_fd: wait.event_fd,
        ms: wait.ms,
    }
}

/// How far a wait has come.
pub struct Wait {
    pub call: WaitCall,
    pub event_fd: i32,
    /// How many milliseconds the system is to wait.
    pub ms: i32,
    /// How many events were reported, once the system has waited.
    pub happened: Option<i32>,
}

impl Wait {
    /// Begins a wait of this length at most.
    pub fn new(poller: &Setup, timeout: Option<Nanos>) -> (r: Self)
        ensures
            r.event_fd == poller.event_fd,
            r.happened is None,
            wait_ms(poller.timer_fd is Some, timeout) == r.ms,
            match poller.timer_fd {
                Some(fd) => {
                    &&& r.call matches WaitCall::SetTimer(timer, secs, nanos)
                    &&& timer == fd
                    &&& nanos < 1_000_000_000
                    &&& secs * 1_000_000_000 + nanos == (match timeout {
                        Some(t) => t as int,
                        None => 0,
                    })
                },
                None => r.call == WaitCall::Wait(r.ms),
            },
    {
        let ms: i32 = timeout_ms(poller.timer_fd.is_some(), timeout);
        let call = match poller.timer_fd {
            Some(fd) => {
                let spec = timer_spec(timeout);
                WaitCall::SetTimer(fd, spec.0, spec.1)
            },
            None => WaitCall::Wait(ms),
        };
        Wait { call, event_fd: poller.event_fd, ms, happened: None }
    }

    /// Notes what came of the call: a number, or an error of the system.
    pub fn done(&mut self, res: Result<i32, i32>)
        requires
            !(old(self).call is Ready),
            !(old(self).call is Failed),
        ensures
            *final(self) == stepped(old(self), res),
    {
        self.call = match (self.call, res) {
            (WaitCall::Drain(fd), _) => WaitCall::Modify(fd, Event::readable(NOTIFY_KEY)),
            (_, Err(error)) => WaitCall::Failed(error),
            (WaitCall::SetTimer(fd, _, _), Ok(_)) => WaitCall::Modify(
                fd,
                Event::readable(NOTIFY_KEY),
            ),
            (WaitCall::Wait(_), Ok(n)) => {
                self.happened = Some(n);
                WaitCall::Drain(self.event_fd)
            },
            (_, Ok(_)) => match self.happened {
                None => WaitCall::Wait(self.ms),
                Some(n) => WaitCall::Ready(n),
            },
        };
    }
}

/// A wait tells how many events the system reported, whether or not it was interrupted, and before
/// it does, it listens again to what interrupts waits.
pub proof fn law_listens_again(wait: &Wait, n: i32, read: Result<i32, i32>, m: i32)
    requires
        wait.call is Wait,
    ensures
        ({
            let waited = stepped(wait, Ok(n));
            let drained = stepped(&waited, read);
            let ended = stepped(&drained, Ok(m));
            &&& waited.call == WaitCall::Drain(wait.event_fd)
            &&& drained.call == WaitCall::Modify(
                wait.event_fd,
                Event { key: NOTIFY_KEY, readable: true, writable: false },
            )
            &&& ended.call == WaitCall::Ready(n)
        }),
{
}

/// An error and a hang-up are reported to readers and to writers.
pub proof fn law_errors_reach_all(flags: i32)
    requires
        flags & 0x18 != 0,
    ensures
        flags & READ_FLAGS != 0,
        flags & WRITE_FLAGS != 0,
{
    assert(flags & 0x18 != 0 ==> flags & 0x201b != 0 && flags & 0x1c != 0) by (bit_vector);
}

/// A wait is never shorter than asked for, and less than a millisecond longer, as long as the
/// system can count it.
pub proof fn law_not_too_early(t: Nanos)
    ensures
        millis_up(t) < i32::MAX ==> t <= millis_up(t) * 1_000_000 < t + 1_000_000,
{
}

/// What is registered covers the interest, in each of its directions and whatever the other is:
/// input (0x1), urgent input (0x2) and the other side closing its half (0x2000) for those who read,
/// output (0x4) for those who write, errors (0x8) and hanging up (0x10) for both, and nothing else
/// but that it holds for one event (0x4000_0000).
pub proof fn law_interest_covers(readable: bool, writable: bool)
    ensures
        (flags_of(readable, writable) & 0x1 != 0) == readable,
        (flags_of(readable, writable) & 0x2 != 0) == readable,
        (flags_of(readable, writable) & 0x2000 != 0) == readable,
        (flags_of(readable, writable) & 0x4 != 0) == writable,
        (flags_of(readable, writable) & 0x8 != 0) == (readable || writable),
        (flags_of(readable, writable) & 0x10 != 0) == (readable || writable),
        flags_of(readable, writable) & 0x4000_0000 != 0,
        flags_of(readable, writable) & !0x4000_201fi32 == 0,
{
    let r: i32 = if readable {
        READ_FLAGS
    } else {
        0
    };
    let w: i32 = if writable {
        WRITE_FLAGS
    } else {
        0
    };
    assert((r == 0x201b || r == 0) && (w == 0x1c || w == 0) ==> {
        let f = 0x4000_0000i32 | r | w;
        &&& (f & 0x1 != 0) == (r == 0x201b)
        &&& (f & 0x2 != 0) == (r == 0x201b)
        &&& (f & 0x2000 != 0) == (r == 0x201b)
        &&& (f & 0x4 != 0) == (w == 0x1c)
        &&& (f & 0x8 != 0) == (r == 0x201b || w == 0x1c)
        &&& (f & 0x10 != 0) == (r == 0x201b || w == 0x1c)
        &&& f & 0x4000_0000 != 0
        &&& f & !0x4000_201fi32 == 0
    }) by (bit_vector);
}

/// What the system reports reaches those it is for: a reader if it is input (0x1), urgent input
/// (0x2) or the other side closing its half (0x2000), a writer if it is output (0x4), and both if it
/// is an error (0x8) or hanging up (0x10).
pub proof fn law_reported(flags: i32)
    ensures
        (flags & READ_FLAGS != 0) == (flags & 0x1 != 0 || flags & 0x2 != 0 || flags & 0x8 != 0
            || flags & 0x10 != 0 || flags & 0x2000 != 0),
        (flags & WRITE_FLAGS != 0) == (flags & 0x4 != 0 || flags & 0x8 != 0 || flags & 0x10 != 0),
{
    assert({
        &&& (flags & 0x201b != 0) == (flags & 0x1 != 0 || flags & 0x2 != 0 || flags & 0x8 != 0
            || flags & 0x10 != 0 || flags & 0x2000 != 0)
        &&& (flags & 0x1c != 0) == (flags & 0x4 != 0 || flags & 0x8 != 0 || flags & 0x10 != 0)
    }) by (bit_vector);
}

/// How long the system waits: for ever if there is no end to it, not at all if there is no time, and
/// otherwise for as long as was asked for at least, be it by itself or by the timer.
pub proof fn law_waits_long_enough(has_timer: bool, timeout: Option<Nanos>)
    ensures
        timeout is None ==> wait_ms(has_timer, timeout) == -1,
        timeout == Some(0u128) <==> wait_ms(has_timer, timeout) == 0,
        timeout matches Some(t) && t > 0 && has_timer ==> wait_ms(has_timer, timeout) == -1,
        timeout matches Some(t) && t > 0 && !has_timer ==> {
            let ms = wait_ms(has_timer, timeout);
            &&& 0 < ms <= i32::MAX
            &&& ms == i32::MAX || timeout->0 <= ms * 1_000_000 < timeout->0 + 1_000_000
        },
{
}

/// Whatever is to be waited for: where there is a timer, it is set and listened to before the system
/// waits, and whatever fails before that or while it waits is told.
pub proof fn law_timer_before_wait(wait: &Wait, a: i32, b: i32, e: i32)
    requires
        wait.call is SetTimer,
        wait.happened is None,
    ensures
        ({
            let set = stepped(wait, Ok(a));
            let listening = stepped(&set, Ok(b));
            &&& set.call == WaitCall::Modify(
                wait.call->SetTimer_0,
                Event { key: NOTIFY_KEY, readable: true, writable: false },
            )
            &&& listening.call == WaitCall::Wait(wait.ms)
            &&& listening.happened is None
            &&& listening.event_fd == wait.event_fd
            &&& stepped(wait, Err(e)).call == WaitCall::Failed(e)
            &&& stepped(&set, Err(e)).call == WaitCall::Failed(e)
            &&& stepped(&listening, Err(e)).call == WaitCall::Failed(e)
        }),
{
}

/// How many calls there are at most until the poller is set up.
pub open spec fn setup_left(call: SetupCall) -> nat {
    match call {
        SetupCall::Create1 => 8,
        SetupCall::Create => 7,
        SetupCall::GetFd(_) => 6,
        SetupCall::SetFd(..) => 5,
        SetupCall::EventFd => 4,
        SetupCall::TimerFd => 3,
        SetupCall::Add(_, interest) => if interest.readable {
            1
        } else {
            2
        },
        _ => 0,
    }
}

/// A poller is set up step by step. It fails only because a call failed that is needed: the queue, in
/// the old way if the new one is missing, what interrupts a wait, and adding to the queue; without a
/// timer and without the flags it can do. It is ready only once it listens to what interrupts a wait.
pub proof fn law_epoll_set_up(before: &Setup, res: Result<i32, i32>, missing: i32, after: &Setup)
    requires
        !(before.call() is Ready),
        !(before.call() is Failed),
        before.leads(res, missing, after),
    ensures
        setup_left(after.call()) < setup_left(before.call()),
        after.call() matches SetupCall::Failed(error) ==> res == Err::<i32, i32>(error) && {
            ||| before.call() is Create1 && error != missing
            ||| before.call() is Create
            ||| before.call() is EventFd
            ||| before.call() is Add
        },
        res is Err && (before.call() is Create || before.call() is EventFd || before.call() is Add)
            ==> after.call() is Failed,
        before.call() is Create1 && res is Err ==> (after.call() is Create <==> res->Err_0 == missing),
        before.call() is Create && res is Ok ==> after.call() == SetupCall::GetFd(res->Ok_0),
        after.call() matches SetupCall::SetFd(fd, flags) ==> before.call() == SetupCall::GetFd(fd)
            && res == Ok::<i32, i32>(flags),
        after.call() is Ready ==> res is Ok && (before.call() matches SetupCall::Add(_, ev)
            && ev.readable),
        before.call() is TimerFd ==> ((after.timer_fd is Some) <==> res is Ok),
        before.call() is TimerFd && res is Ok ==> (after.call() matches SetupCall::Add(fd, ev)
            && res == Ok::<i32, i32>(fd) && !ev.readable && !ev.writable),
        after.call() matches SetupCall::Add(fd, ev) ==> (ev.readable ==> fd == after.event_fd),
        after.call() matches SetupCall::Add(_, ev) ==> ev.key == NOTIFY_KEY && !ev.writable,
        (before.call() is Create1 || before.call() is Create) && res is Ok ==> after.epoll_fd
            == res->Ok_0,
        before.call() is EventFd && res is Ok ==> after.event_fd == res->Ok_0,
        !(before.call() is Create1) && !(before.call() is Create) ==> after.epoll_fd
            == before.epoll_fd,
        !(before.call() is EventFd) ==> after.event_fd == before.event_fd,
        !(before.call() is TimerFd) ==> after.timer_fd == before.timer_fd,
{
}

} // verus!
