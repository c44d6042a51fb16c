//! The bits of the state of a task.

use vstd::prelude::*;

verus! {

/// The task is in a queue, or is about to be.
pub const SCHEDULED: usize = 1;

/// The task is being polled.
pub const RUNNING: usize = 2;

/// The task has its output.
pub const COMPLETED: usize = 4;

/// The task was cancelled, or its output was taken.
pub const CLOSED: usize = 8;

/// Somebody can still ask for the output.
pub const TASK: usize = 16;

/// Somebody waits for the output.
pub const AWAITER: usize = 32;

/// Somebody is about to wait for the output.
pub const REGISTERING: usize = 64;

/// Whoever waits is about to be notified.
pub const NOTIFYING: usize = 128;

/// One reference to the task; the bits from here on count them.
pub const REFERENCE: usize = 256;

/// Whether `state` has the given bit.
pub open spec fn is_set(state: usize, bit: usize) -> bool {
    state & bit != 0
}

/// The bits that have to do with whoever waits for the output.
pub open spec fn waiting_bits(state: usize) -> (bool, bool, bool) {
    (is_set(state, 32), is_set(state, 64), is_set(state, 128))
}

/// All other bits.
pub open spec fn other_bits(state: usize) -> usize {
    state & !224
}

pub proof fn lemma_waiting_bits(s: usize)
    by (bit_vector)
    ensures
        is_set(s | 128, 128) && is_set(s | 128, 64) == is_set(s, 64) && is_set(s | 128, 32)
            == is_set(s, 32) && other_bits(s | 128) == other_bits(s),
        is_set(s | 64, 64) && is_set(s | 64, 128) == is_set(s, 128) && is_set(s | 64, 32)
            == is_set(s, 32) && other_bits(s | 64) == other_bits(s),
        !is_set(s & !128 & !32, 128) && !is_set(s & !128 & !32, 32) && is_set(s & !128 & !32, 64)
            == is_set(s, 64) && other_bits(s & !128 & !32) == other_bits(s),
        !is_set((s & !128 & !64) | 32, 128) && !is_set((s & !128 & !64) | 32, 64) && is_set(
            (s & !128 & !64) | 32,
            32,
        ) && other_bits((s & !128 & !64) | 32) == other_bits(s),
        !is_set(s & !128 & !64 & !32, 128) && !is_set(s & !128 & !64 & !32, 64) && !is_set(
            s & !128 & !64 & !32,
            32,
        ) && other_bits(s & !128 & !64 & !32) == other_bits(s),
        (s & (128usize | 64usize) == 0) == (!is_set(s, 128) && !is_set(s, 64)),
{
}

pub proof fn lemma_run_bits(s: usize)
    by (bit_vector)
    ensures
        (s & (4usize | 8usize) != 0) == (is_set(s, 4) || is_set(s, 8)),
        is_set(s | 8, 8) && (s | 8) & !8 == s & !8,
        is_set(s | 8, 32) == is_set(s, 32) && is_set(s | 8, 64) == is_set(s, 64) && is_set(
            s | 8,
            128,
        ) == is_set(s, 128),
        !is_set(s & !1, 1) && (s & !1) & !1 == s & !1,
        is_set(s & !1, 32) == is_set(s, 32) && is_set(s & !1, 64) == is_set(s, 64) && is_set(
            s & !1,
            128,
        ) == is_set(s, 128),
        is_set(s & !1, 8) == is_set(s, 8) && is_set(s & !1, 4) == is_set(s, 4),
{
}

pub proof fn lemma_scheduled_bit(s: usize, t: usize)
    by (bit_vector)
    ensures
        other_bits(s) == other_bits(t) ==> is_set(s, 1) == is_set(t, 1),
{
}

} // verus!
