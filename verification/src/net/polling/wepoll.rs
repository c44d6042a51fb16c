//! Waiting with an `epoll` that is built on completion ports.

use vstd::prelude::*;
use crate::net::polling::epoll::millis_up;
use crate::task::Nanos;

verus! {

/// How many milliseconds to wait until `deadline`: -1 is for ever.
pub fn timeout_ms(deadline: Option<Nanos>, now: Nanos) -> (r: i32)
    ensures
        r == left_ms(deadline, now),
{
    match deadline {
        None => -1,
        Some(deadline) => {
            let t: Nanos = if now < deadline {
                deadline - now
            } else {
                0
            };
            let mut ms: u128 = t / 1_000_000;
            if ms * 1_000_000 < t {
                ms = ms + 1;
            }
            if ms <= i32::MAX as u128 {
                ms as i32
            } else {
                i32::MAX
            }
        },
    }
}

/// Whether a wait has ended: it was interrupted, something happened, or it was not to wait at all.
/// Otherwise it is continued.
pub fn has_ended(notified: bool, happened: usize, timeout_ms: i32) -> (r: bool)
    ensures
        r == (notified || happened > 0 || timeout_ms == 0),
{
    notified || happened > 0 || timeout_ms == 0
}

/// A call that is part of a wait.
#[derive(Clone, Copy, Debug, PartialEq, Eq, Structural)]
pub enum WaitCall {
    /// Wait for so many milliseconds.
    Wait(i32),
    /// So many events were reported.
    Ready(usize),
    /// The wait failed with this error of the system.
    Failed(i32),
}

/// How long to wait until a deadline, as the system counts it.
pub open spec fn left_ms(deadline: Option<Nanos>, now: Nanos) -> int {
    match deadline {
        Some(deadline) => if now < deadline {
            millis_up((deadline - now) as Nanos)
        } else {
            0
        },
        None => -1,
    }
}

/// How far a wait has come.
pub struct Wait {
    pub call: WaitCall,
    pub deadline: Option<Nanos>,
}

impl Wait {
    /// Begins a wait of this length at most, at the time `now`.
    pub fn new(timeout: Option<Nanos>, now: Nanos) -> (r: Self)
        requires
            timeout matches Some(t) ==> now + t <= Nanos::MAX,
        ensures
            r.deadline == (match timeout {
                Some(t) => Some((now + t) as Nanos),
                None => None,
            }),
            r.call matches WaitCall::Wait(ms) && ms == left_ms(r.deadline, now),
    {
        let deadline: Option<Nanos> = match timeout {
            Some(t) => Some(now + t),
            None => None,
        };
        Wait { call: WaitCall::Wait(timeout_ms(deadline, now)), deadline }
    }

    /// Notes what came of the call, at the time `now`: how many events were reported, or an error
    /// of the system; and whether the wait was told to end. If there is no reason to end, it goes
    /// on for what is left.
    pub fn done(&mut self, res: Result<usize, i32>, notified: bool, now: Nanos)
        requires
            old(self).call is Wait,
        ensures
            final(self).deadline == old(self).deadline,
            match (old(self).call, res) {
                (_, Err(error)) => final(self).call == WaitCall::Failed(error),
                (WaitCall::Wait(ms), Ok(n)) => if notified || n > 0 || ms == 0 {
                    final(self).call == WaitCall::Ready(n)
                } else {
                    final(self).call matches WaitCall::Wait(next) && next == left_ms(
                        old(self).deadline,
                        now,
                    )
                },
                _ => true,
            },
    {
        let ms: i32 = match self.call {
            WaitCall::Wait(ms) => ms,
            _ => 0,
        };
        self.call = match res {
            Err(error) => WaitCall::Failed(error),
            Ok(n) => if has_ended(notified, n, ms) {
                WaitCall::Ready(n)
            } else {
                WaitCall::Wait(timeout_ms(self.deadline, now))
            },
        };
    }
}

/// A wait that nothing ends before does not end before its deadline.
pub proof fn law_until_deadline(deadline: Nanos, now: Nanos)
    ensures
        left_ms(Some(deadline), now) == 0 <==> now >= deadline,
{
}

/// What is left of a wait reaches to its deadline, as far as the system counts, and less than a
/// millisecond beyond.
pub proof fn law_left(deadline: Nanos, now: Nanos)
    requires
        now < deadline,
    ensures
        0 < left_ms(Some(deadline), now) <= i32::MAX,
        left_ms(Some(deadline), now) == i32::MAX || deadline <= now + left_ms(Some(deadline), now)
            * 1_000_000 < deadline + 1_000_000,
        left_ms(None, now) == -1,
{
}

} // verus!
