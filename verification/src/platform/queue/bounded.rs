//! A queue that holds a fixed number of items.
//!
//! The items stand in a ring of slots. A thread pushes in two steps: it claims the next slot by
//! moving the tail on, and then fills the slot and stamps it. It pops in two steps as well: it
//! claims the first slot by moving the head on, and then empties the slot and stamps it. Between
//! the steps of one thread any steps of others may come, so each step is a function of its own
//! here, whose contract holds whatever other claims are outstanding.

use vstd::prelude::*;
use vstd::arithmetic::div_mod::{
    lemma_fundamental_div_mod, lemma_fundamental_div_mod_converse,
};
use vstd::arithmetic::power2::{
    lemma2_to64, lemma_pow2_adds, lemma_pow2_pos, lemma_pow2_strictly_increases, lemma_pow2_unfold,
    pow2,
};
use crate::platform::queue::{PopError, PushError};

verus! {

struct Slot<T> {
    /// The tail at which the slot may be claimed for a push; one more than that once it was
    /// filled.
    stamp: usize,
    value: Option<T>,
}

/// A bounded queue.
///
/// The head and the tail count slots from lap to lap: the lower bits are the number of a slot, the
/// upper bits the number of the lap, and the bit between them, in the tail, says that the queue is
/// closed.
pub struct Bounded<T> {
    head: usize,
    tail: usize,
    buffer: Vec<Slot<T>>,
    one_lap: usize,
    mark_bit: usize,
    /// How many slots were claimed for a pop and for a push so far.
    popped: Ghost<nat>,
    pushed: Ghost<nat>,
}

/// A slot that was claimed.
pub struct Ticket {
    index: usize,
    stamp: usize,
    position: Ghost<nat>,
}

impl Ticket {
    /// How many slots were claimed in the same way before this one.
    pub closed spec fn position(&self) -> nat {
        self.position@
    }
}

/// What came of the first step of a push.
pub enum PushStep {
    Claimed(Ticket),
    Full,
    Closed,
    /// Another thread is about to empty or to fill the slot that is needed: try again.
    Busy,
}

/// What came of the first step of a pop.
pub enum PopStep {
    Claimed(Ticket),
    Empty,
    Closed,
    /// Another thread is about to fill the slot that is needed: try again.
    Busy,
}

/// The numbers of laps that a head or a tail can tell apart.
spec fn laps(one_lap: int) -> int {
    (usize::MAX + 1) / one_lap
}

/// What a head or a tail holds after `p` claims.
spec fn word(p: int, cap: int, one_lap: int) -> int {
    ((p / cap) % laps(one_lap)) * one_lap + p % cap
}

spec fn sizes(cap: int, mark_bit: int, one_lap: int) -> bool {
    &&& 0 < cap < mark_bit
    &&& one_lap == 2 * mark_bit
    &&& laps(one_lap) * one_lap == usize::MAX + 1
    &&& laps(one_lap) >= 2
}

/// The parts of a word.
proof fn lemma_word(p: int, cap: int, mark_bit: int, one_lap: int)
    requires
        p >= 0,
        sizes(cap, mark_bit, one_lap),
    ensures
        0 <= p % cap < cap,
        0 <= word(p, cap, one_lap),
        word(p, cap, one_lap) + mark_bit <= usize::MAX,
        word(p, cap, one_lap) % one_lap == p % cap,
        word(p, cap, one_lap) % mark_bit == p % cap,
        (word(p, cap, one_lap) + mark_bit) % one_lap == p % cap + mark_bit,
        (word(p, cap, one_lap) + mark_bit) % mark_bit == p % cap,
{
    let l: int = laps(one_lap);
    let a: int = (p / cap) % l;
    let i: int = p % cap;
    let w: int = word(p, cap, one_lap);
    assert(0 <= p / cap) by (nonlinear_arith)
        requires
            p >= 0,
            cap > 0,
    ;
    assert(0 <= a < l);
    assert(0 <= a * one_lap && a * one_lap + one_lap <= l * one_lap) by (nonlinear_arith)
        requires
            0 <= a < l,
            one_lap > 0,
    ;
    lemma_fundamental_div_mod_converse(w, one_lap, a, i);
    lemma_fundamental_div_mod_converse(w + mark_bit, one_lap, a, i + mark_bit);
    assert(a * one_lap == (2 * a) * mark_bit && (2 * a + 1) * mark_bit == a * one_lap + mark_bit)
        by (nonlinear_arith)
        requires
            one_lap == 2 * mark_bit,
    ;
    lemma_fundamental_div_mod_converse(w, mark_bit, 2 * a, i);
    lemma_fundamental_div_mod_converse(w + mark_bit, mark_bit, 2 * a + 1, i);
}

/// One claim further.
proof fn lemma_word_next(p: int, cap: int, mark_bit: int, one_lap: int)
    requires
        p >= 0,
        sizes(cap, mark_bit, one_lap),
    ensures
        p % cap + 1 < cap ==> word(p + 1, cap, one_lap) == word(p, cap, one_lap) + 1,
        p % cap + 1 >= cap ==> word(p + 1, cap, one_lap) == after_lap(
            word(p, cap, one_lap) - p % cap,
            one_lap,
        ),
        word(p + cap, cap, one_lap) == (if word(p, cap, one_lap) + one_lap > usize::MAX {
            word(p, cap, one_lap) + one_lap - usize::MAX - 1
        } else {
            word(p, cap, one_lap) + one_lap
        }),
        (p + cap) % cap == p % cap,
{
    let l: int = laps(one_lap);
    let n: int = p / cap;
    let i: int = p % cap;
    lemma_fundamental_div_mod(p, cap);
    assert(0 <= n) by (nonlinear_arith)
        requires
            p >= 0,
            cap > 0,
            n == p / cap,
    ;
    lemma_lap_next(n, one_lap);
    assert(cap * (n + 1) == cap * n + cap) by (nonlinear_arith);
    assert(n * cap == cap * n && (n + 1) * cap == cap * n + cap) by (nonlinear_arith);
    if i + 1 < cap {
        lemma_fundamental_div_mod_converse(p + 1, cap, n, i + 1);
    } else {
        lemma_fundamental_div_mod_converse(p + 1, cap, n + 1, 0);
    }
    lemma_fundamental_div_mod_converse(p + cap, cap, n + 1, i);
    lemma_word(p, cap, mark_bit, one_lap);
    assert(l * one_lap - one_lap == (l - 1) * one_lap) by (nonlinear_arith);
    let a: int = n % l;
    if a < l - 1 {
        assert(a * one_lap <= (l - 2) * one_lap) by (nonlinear_arith)
            requires
                a <= l - 2,
                one_lap > 0,
        ;
        assert((l - 2) * one_lap == l * one_lap - 2 * one_lap) by (nonlinear_arith);
    }
}

/// A lap further than `lap`, which is the start of one.
spec fn after_lap(lap: int, one_lap: int) -> int {
    if lap + one_lap > usize::MAX {
        lap + one_lap - usize::MAX - 1
    } else {
        lap + one_lap
    }
}

proof fn lemma_lap_next(n: int, one_lap: int)
    requires
        n >= 0,
        one_lap > 0,
        laps(one_lap) * one_lap == usize::MAX + 1,
        laps(one_lap) >= 2,
    ensures
        n % laps(one_lap) < laps(one_lap) - 1 ==> (n + 1) % laps(one_lap) == n % laps(one_lap)
            + 1,
        n % laps(one_lap) == laps(one_lap) - 1 ==> (n + 1) % laps(one_lap) == 0,
        0 <= n % laps(one_lap) < laps(one_lap),
        ((n + 1) % laps(one_lap)) * one_lap == after_lap((n % laps(one_lap)) * one_lap, one_lap),
{
    let l: int = laps(one_lap);
    let a: int = n % l;
    lemma_fundamental_div_mod(n, l);
    let q: int = n / l;
    assert(l * (q + 1) == l * q + l && q * l == l * q && (q + 1) * l == l * q + l)
        by (nonlinear_arith);
    if a < l - 1 {
        lemma_fundamental_div_mod_converse(n + 1, l, q, a + 1);
        assert((a + 1) * one_lap == a * one_lap + one_lap && a * one_lap <= (l - 2) * one_lap
            && (l - 2) * one_lap == l * one_lap - 2 * one_lap) by (nonlinear_arith)
            requires
                a <= l - 2,
                one_lap > 0,
        ;
    } else {
        lemma_fundamental_div_mod_converse(n + 1, l, q + 1, 0);
        assert((l - 1) * one_lap == l * one_lap - one_lap) by (nonlinear_arith);
        assert(0 * one_lap == 0);
    }
}

/// Words that are less than a lap apart differ, and so do those that are a lap apart.
proof fn lemma_word_distinct(p: int, q: int, cap: int, mark_bit: int, one_lap: int)
    requires
        0 <= p < q <= p + cap,
        sizes(cap, mark_bit, one_lap),
    ensures
        word(p, cap, one_lap) != word(q, cap, one_lap),
        q < p + cap ==> p % cap != q % cap,
{
    lemma_word(p, cap, mark_bit, one_lap);
    lemma_word(q, cap, mark_bit, one_lap);
    lemma_word_next(p, cap, mark_bit, one_lap);
    assert(2 * one_lap <= laps(one_lap) * one_lap) by (nonlinear_arith)
        requires
            laps(one_lap) >= 2,
            one_lap > 0,
    ;
    if q < p + cap && p % cap == q % cap {
        lemma_fundamental_div_mod(p, cap);
        lemma_fundamental_div_mod(q, cap);
        let d: int = q / cap - p / cap;
        assert(cap * (q / cap) - cap * (p / cap) == cap * d) by (nonlinear_arith)
            requires
                d == q / cap - p / cap,
        ;
        assert(false) by (nonlinear_arith)
            requires
                0 < cap * d < cap,
                cap > 0,
        ;
    }
}

impl<T> Bounded<T> {
    spec fn cap(&self) -> int {
        self.buffer@.len() as int
    }

    spec fn at(&self, p: int) -> int {
        word(p, self.cap(), self.one_lap as int)
    }

    spec fn slot(&self, p: int) -> Slot<T> {
        self.buffer@[p % self.cap()]
    }

    /// How many items the queue has room for.
    pub closed spec fn spec_capacity(&self) -> nat {
        self.buffer@.len()
    }

    /// How many slots were claimed for a pop so far.
    pub closed spec fn first(&self) -> nat {
        self.popped@
    }

    /// The items from the first to the last; `None` stands for one that was claimed and is still
    /// to be filled in.
    pub closed spec fn entries(&self) -> Seq<Option<T>> {
        Seq::new(
            (self.pushed@ - self.popped@) as nat,
            |i: int| self.slot(self.popped@ + i).value,
        )
    }

    /// The items that were claimed for a pop and are still to be taken out, each under the number
    /// of claims before its own.
    pub closed spec fn leaving(&self) -> Map<nat, T> {
        Map::new(
            |p: nat|
                p < self.popped@ && self.pushed@ <= p + self.cap() && self.slot(p as int).value
                    is Some,
            |p: nat| self.slot(p as int).value->0,
        )
    }

    pub closed spec fn closed(&self) -> bool {
        (self.tail as int) % (self.one_lap as int) >= self.mark_bit
    }

    /// Nothing is claimed at present.
    pub open spec fn settled(&self) -> bool {
        &&& forall|i: int| 0 <= i < self.entries().len() ==> #[trigger] self.entries()[i] is Some
        &&& self.leaving() =~= Map::empty()
    }

    spec fn slot_wf(&self, p: int) -> bool {
        let slot = self.slot(p);
        if p < self.pushed@ {
            ||| slot.stamp == self.at(p) && slot.value is None
            ||| slot.stamp == self.at(p) + 1 && slot.value is Some
        } else {
            ||| slot.stamp == self.at(p) && slot.value is None
            ||| p >= self.cap() && slot.stamp == self.at(p - self.cap()) + 1 && slot.value is Some
        }
    }

    pub closed spec fn wf(&self) -> bool {
        let h = self.popped@;
        let t = self.pushed@;
        &&& sizes(self.cap(), self.mark_bit as int, self.one_lap as int)
        &&& h <= t <= h + self.cap()
        &&& self.head == self.at(h as int)
        &&& self.tail == self.at(t as int) || self.tail == self.at(t as int) + self.mark_bit
        &&& forall|p: int| h <= p < h + self.cap() ==> #[trigger] self.slot_wf(p)
    }

    /// The ticket was handed out by this queue.
    pub closed spec fn admits(&self, ticket: Ticket) -> bool {
        &&& ticket.index == ticket.position@ as int % self.cap()
        &&& ticket.stamp == self.at(ticket.position@ as int)
    }

    /// What no operation changes.
    pub open spec fn same_ring(&self, other: &Self) -> bool {
        &&& self.spec_capacity() == other.spec_capacity()
        &&& forall|ticket: Ticket| #[trigger] self.admits(ticket) == other.admits(ticket)
    }

    /// The items, where none is still to be filled in.
    pub open spec fn items(&self) -> Seq<T> {
        Seq::new(self.entries().len(), |i: int| self.entries()[i]->0)
    }

    /// The slots of two claims less than a lap apart are different ones.
    proof fn lemma_other_slot(&self, p: int, q: int)
        requires
            self.wf(),
            0 <= p,
            0 <= q,
            p != q,
            p - self.cap() < q < p + self.cap(),
        ensures
            0 <= p % self.cap() < self.cap(),
            0 <= q % self.cap() < self.cap(),
            p % self.cap() != q % self.cap(),
    {
        if p < q {
            lemma_word_distinct(p, q, self.cap(), self.mark_bit as int, self.one_lap as int);
        } else {
            lemma_word_distinct(q, p, self.cap(), self.mark_bit as int, self.one_lap as int);
        }
    }

    /// What the words tell of one position.
    proof fn lemma_at(&self, p: int)
        requires
            self.wf(),
            0 <= p,
        ensures
            0 <= p % self.cap() < self.cap(),
            0 <= self.at(p) <= usize::MAX - self.mark_bit,
            self.at(p) % (self.one_lap as int) == p % self.cap(),
            self.at(p) % (self.mark_bit as int) == p % self.cap(),
            (self.at(p) + self.mark_bit) % (self.one_lap as int) == p % self.cap() + self.mark_bit,
            (self.at(p) + self.mark_bit) % (self.mark_bit as int) == p % self.cap(),
            p % self.cap() + 1 < self.cap() ==> self.at(p + 1) == self.at(p) + 1,
            p % self.cap() + 1 >= self.cap() ==> self.at(p + 1) == after_lap(
                self.at(p) - p % self.cap(),
                self.one_lap as int,
            ),
            self.at(p + self.cap()) == after_lap(self.at(p), self.one_lap as int),
            self.at(p + self.cap()) != self.at(p),
            self.at(p + self.cap()) != self.at(p) + 1,
            (p + self.cap()) % self.cap() == p % self.cap(),
    {
        let cap = self.cap();
        let one_lap = self.one_lap as int;
        lemma_word(p, cap, self.mark_bit as int, one_lap);
        lemma_word_next(p, cap, self.mark_bit as int, one_lap);
        lemma_word_distinct(p, p + cap, cap, self.mark_bit as int, one_lap);
        lemma_word(p + cap, cap, self.mark_bit as int, one_lap);
        assert(2 * one_lap <= laps(one_lap) * one_lap) by (nonlinear_arith)
            requires
                laps(one_lap) >= 2,
                one_lap > 0,
        ;
    }

    /// A queue with room for `cap` items.
    pub fn new(cap: usize) -> (r: Self)
        requires
            0 < cap <= usize::MAX / 4,
        ensures
            r.wf(),
            r.settled(),
            r.entries() == Seq::<Option<T>>::empty(),
            r.spec_capacity() == cap,
            !r.closed(),
    {
        let mut buffer: Vec<Slot<T>> = Vec::with_capacity(cap);
        let mut i: usize = 0;
        while i < cap
            invariant
                i <= cap,
                buffer@.len() == i,
                forall|j: int|
                    0 <= j < i ==> (#[trigger] buffer@[j]).stamp == j && buffer@[j].value is None,
            decreases cap - i,
        {
            buffer.push(Slot { stamp: i, value: None });
            i = i + 1;
        }
        let mut mark_bit: usize = 1;
        let ghost mut e: nat = 0;
        proof {
            lemma2_to64();
        }
        while mark_bit < cap + 1
            invariant
                0 < cap <= usize::MAX / 4,
                mark_bit == pow2(e),
                1 <= mark_bit <= usize::MAX / 2,
            decreases 2 * cap - mark_bit,
        {
            proof {
                lemma_pow2_unfold((e + 1) as nat);
                e = (e + 1) as nat;
            }
            mark_bit = mark_bit * 2;
        }
        let one_lap: usize = mark_bit * 2;
        proof {
            lemma_sizes(cap as int, mark_bit as int, e);
        }
        let r = Bounded {
            head: 0,
            tail: 0,
            buffer,
            one_lap,
            mark_bit,
            popped: Ghost(0),
            pushed: Ghost(0),
        };
        proof {
            let c = r.cap();
            let l = laps(one_lap as int);
            assert forall|p: int| 0 <= p < c implies #[trigger] r.slot_wf(p) by {
                lemma_fundamental_div_mod_converse(p, c, 0, p);
                lemma_fundamental_div_mod_converse(0, l, 0, 0);
                assert(0 * (one_lap as int) == 0);
            }
            assert(r.slot_wf(0));
            lemma_fundamental_div_mod_converse(0, c, 0, 0);
            lemma_fundamental_div_mod_converse(0, l, 0, 0);
            assert(r.at(0) == 0);
            assert(0 as int % (one_lap as int) == 0) by {
                lemma_fundamental_div_mod_converse(0, one_lap as int, 0, 0);
            }
        }
        r
    }

    /// The first step of a push: claims the next slot.
    pub fn start_push(&mut self) -> (r: PushStep)
        requires
            old(self).wf(),
        ensures
            final(self).wf(),
            final(self).same_ring(old(self)),
            final(self).closed() == old(self).closed(),
            final(self).first() == old(self).first(),
            final(self).leaving() == old(self).leaving(),
            match r {
                PushStep::Claimed(ticket) => {
                    &&& !old(self).closed()
                    &&& old(self).entries().len() < old(self).spec_capacity()
                    &&& !old(self).leaving().contains_key(
                        (old(self).first() + old(self).entries().len()
                            - old(self).spec_capacity()) as nat,
                    ) || old(self).first() + old(self).entries().len() < old(self).spec_capacity()
                    &&& final(self).admits(ticket)
                    &&& ticket.position() == old(self).first() + old(self).entries().len()
                    &&& final(self).entries() == old(self).entries().push(None)
                },
                PushStep::Full => {
                    &&& !old(self).closed()
                    &&& old(self).entries().len() == old(self).spec_capacity()
                    &&& old(self).entries()[0] is Some
                    &&& final(self).entries() == old(self).entries()
                },
                PushStep::Closed => {
                    &&& old(self).closed()
                    &&& final(self).entries() == old(self).entries()
                },
                PushStep::Busy => {
                    &&& !old(self).closed()
                    &&& final(self).entries() == old(self).entries()
                    &&& {
                        ||| old(self).entries().len() == old(self).spec_capacity()
                            && old(self).entries()[0] is None
                        ||| old(self).entries().len() < old(self).spec_capacity() <= old(self).first() + old(self).entries().len() && old(self).leaving().contains_key(
                            (old(self).first() + old(self).entries().len()
                                - old(self).spec_capacity()) as nat,
                        )
                    }
                },
            },
    {
        let ghost before = *self;
        let ghost h: int = self.popped@ as int;
        let ghost t: int = self.pushed@ as int;
        let ghost cap: int = self.cap();
        proof {
            self.lemma_at(t);
            self.lemma_at(h);
        }
        if self.tail % self.one_lap >= self.mark_bit {
            return PushStep::Closed;
        }
        let tail: usize = self.tail;
        let index: usize = tail % self.mark_bit;
        let lap: usize = tail - index;
        let stamp: usize = self.buffer[index].stamp;
        proof {
            assert(tail == self.at(t));
            if t < h + cap {
                assert(self.slot_wf(t));
                if t >= cap {
                    self.lemma_at(t - cap);
                    assert(self.leaving().contains_key((t - cap) as nat) <==> self.slot(
                        t - cap,
                    ).value is Some);
                }
            } else {
                assert(self.slot_wf(h));
                assert(self.slot(t) == self.slot(h));
                assert(self.entries()[0] == self.slot(h).value);
            }
        }
        if tail == stamp {
            let new_tail: usize = if index + 1 < self.buffer.len() {
                tail + 1
            } else {
                lap.wrapping_add(self.one_lap)
            };
            self.tail = new_tail;
            proof {
                self.pushed = Ghost((self.pushed@ + 1) as nat);
                assert forall|p: int| h <= p < h + cap implies #[trigger] self.slot_wf(p) by {
                    assert(before.slot_wf(p));
                }
                self.lemma_at(t + 1);
                assert(self.entries() =~= before.entries().push(None));
                assert forall|p: nat| before.leaving().contains_key(p) implies p != t - cap by {}
                assert(self.leaving() =~= before.leaving());
            }
            PushStep::Claimed(Ticket { index, stamp: tail, position: Ghost(t as nat) })
        } else if stamp.wrapping_add(self.one_lap) == tail + 1 {
            if self.head.wrapping_add(self.one_lap) == tail {
                proof {
                    if t < h + cap {
                        lemma_word_distinct(
                            t,
                            h + cap,
                            cap,
                            self.mark_bit as int,
                            self.one_lap as int,
                        );
                    }
                }
                PushStep::Full
            } else {
                PushStep::Busy
            }
        } else {
            PushStep::Busy
        }
    }

    /// The second step of a push: fills the slot that was claimed.
    pub fn finish_push(&mut self, ticket: Ticket, value: T)
        requires
            old(self).wf(),
            old(self).admits(ticket),
            old(self).first() <= ticket.position() < old(self).first() + old(self).entries().len(),
            old(self).entries()[ticket.position() - old(self).first()] is None,
        ensures
            final(self).wf(),
            final(self).same_ring(old(self)),
            final(self).closed() == old(self).closed(),
            final(self).first() == old(self).first(),
            final(self).leaving() == old(self).leaving(),
            final(self).entries() == old(self).entries().update(
                ticket.position() - old(self).first(),
                Some(value),
            ),
    {
        let ghost before = *self;
        let ghost h: int = self.popped@ as int;
        let ghost t: int = self.pushed@ as int;
        let ghost cap: int = self.cap();
        let ghost k: int = ticket.position@ as int;
        proof {
            self.lemma_at(k);
            assert(self.slot_wf(k));
            assert(self.slot(k) == self.buffer@[ticket.index as int]);
        }
        self.buffer.set(ticket.index, Slot { stamp: ticket.stamp + 1, value: Some(value) });
        proof {
            assert forall|p: int| h - cap <= p < h + cap && p >= 0 && p != k && p != k
                - cap implies #[trigger] self.slot(p) == before.slot(p) by {
                if k - cap < p < k + cap {
                    before.lemma_other_slot(p, k);
                } else {
                    before.lemma_at(p);
                    before.lemma_other_slot(p + cap, k);
                }
            }
            assert(self.slot(k) == Slot { stamp: (ticket.stamp + 1) as usize, value: Some(value) });
            assert forall|p: int| h <= p < h + cap implies #[trigger] self.slot_wf(p) by {
                assert(before.slot_wf(p));
                if p != k {
                    assert(self.slot(p) == before.slot(p));
                }
            }
            assert(self.entries() =~= before.entries().update(k - h, Some(value))) by {
                assert forall|i: int| 0 <= i < t - h implies #[trigger] self.entries()[i]
                    == before.entries().update(k - h, Some(value))[i] by {
                    if h + i != k {
                        assert(self.slot(h + i) == before.slot(h + i));
                    }
                }
            }
            assert forall|p: nat| #![auto]
                p < h && t <= p + cap implies self.slot(p as int) == before.slot(p as int) by {}
            assert(self.leaving() =~= before.leaving());
        }
    }

    /// The first step of a pop: claims the first slot.
    pub fn start_pop(&mut self) -> (r: PopStep)
        requires
            old(self).wf(),
        ensures
            final(self).wf(),
            final(self).same_ring(old(self)),
            final(self).closed() == old(self).closed(),
            match r {
                PopStep::Claimed(ticket) => {
                    &&& old(self).entries().len() > 0
                    &&& old(self).entries()[0] matches Some(value) && final(self).leaving() == old(self).leaving().insert(old(self).first(), value)
                    &&& final(self).entries() == old(self).entries().drop_first()
                    &&& final(self).first() == old(self).first() + 1
                    &&& final(self).admits(ticket)
                    &&& ticket.position() == old(self).first()
                },
                _ => {
                    &&& final(self).entries() == old(self).entries()
                    &&& final(self).leaving() == old(self).leaving()
                    &&& final(self).first() == old(self).first()
                    &&& (r is Busy) == (if old(self).entries().len() > 0 {
                        old(self).entries()[0] is None
                    } else {
                        old(self).first() >= old(self).spec_capacity() && old(self).leaving().contains_key(
                            (old(self).first() - old(self).spec_capacity()) as nat,
                        )
                    })
                    &&& r is Empty ==> old(self).entries().len() == 0 && !old(self).closed()
                    &&& r is Closed ==> old(self).entries().len() == 0 && old(self).closed()
                },
            },
    {
        let ghost before = *self;
        let ghost h: int = self.popped@ as int;
        let ghost t: int = self.pushed@ as int;
        let ghost cap: int = self.cap();
        proof {
            self.lemma_at(t);
            self.lemma_at(h);
            assert(self.slot_wf(h));
            if h >= cap {
                self.lemma_at(h - cap);
                assert(self.leaving().contains_key((h - cap) as nat) <==> t == h && self.slot(
                    h - cap,
                ).value is Some);
            }
            if h < t {
                assert(self.entries()[0] == self.slot(h).value);
                lemma_word_distinct(h, t, cap, self.mark_bit as int, self.one_lap as int);
            }
        }
        let head: usize = self.head;
        let index: usize = head % self.mark_bit;
        let lap: usize = head - index;
        let stamp: usize = self.buffer[index].stamp;
        if head + 1 == stamp {
            let new: usize = if index + 1 < self.buffer.len() {
                head + 1
            } else {
                lap.wrapping_add(self.one_lap)
            };
            self.head = new;
            proof {
                assert(h < t);
                self.popped = Ghost((self.popped@ + 1) as nat);
                assert forall|p: int| h < p < h + 1 + cap implies #[trigger] self.slot_wf(p) by {
                    if p < h + cap {
                        assert(before.slot_wf(p));
                    }
                }
                self.lemma_at(h + 1);
                assert(self.entries() =~= before.entries().drop_first());
                assert(before.slot(h).value is Some);
                assert(self.leaving() =~= before.leaving().insert(
                    h as nat,
                    before.slot(h).value->0,
                ));
            }
            PopStep::Claimed(Ticket { index, stamp: head, position: Ghost(h as nat) })
        } else if stamp == head {
            let marked: bool = self.tail % self.one_lap >= self.mark_bit;
            let tail: usize = if marked {
                self.tail - self.mark_bit
            } else {
                self.tail
            };
            if tail == head {
                if marked {
                    PopStep::Closed
                } else {
                    PopStep::Empty
                }
            } else {
                PopStep::Busy
            }
        } else {
            PopStep::Busy
        }
    }

    /// The second step of a pop: takes the item out of the slot that was claimed.
    pub fn finish_pop(&mut self, ticket: Ticket) -> (r: T)
        requires
            old(self).wf(),
            old(self).admits(ticket),
            old(self).leaving().contains_key(ticket.position()),
        ensures
            final(self).wf(),
            final(self).same_ring(old(self)),
            final(self).closed() == old(self).closed(),
            final(self).first() == old(self).first(),
            final(self).entries() == old(self).entries(),
            r == old(self).leaving()[ticket.position()],
            final(self).leaving() == old(self).leaving().remove(ticket.position()),
    {
        let ghost before = *self;
        let ghost h: int = self.popped@ as int;
        let ghost t: int = self.pushed@ as int;
        let ghost cap: int = self.cap();
        let ghost k: int = ticket.position@ as int;
        proof {
            self.lemma_at(k);
            assert(self.slot_wf(k + cap));
            assert(self.slot(k) == self.buffer@[ticket.index as int]);
            assert(self.slot(k) == self.slot(k + cap));
        }
        let mut slot = Slot { stamp: ticket.stamp.wrapping_add(self.one_lap), value: None };
        let ghost emptied = slot;
        core::mem::swap(&mut slot, &mut self.buffer[ticket.index]);
        proof {
            assert(self.buffer@ =~= before.buffer@.update(ticket.index as int, emptied));
            assert(slot == before.slot(k));
            assert forall|p: int| h - cap <= p < h + cap && p >= 0 && p != k && p != k
                + cap implies #[trigger] self.slot(p) == before.slot(p) by {
                if k - cap < p < k + cap {
                    before.lemma_other_slot(p, k);
                } else {
                    before.lemma_at(k);
                    before.lemma_other_slot(p, k + cap);
                }
            }
            assert forall|p: int| h <= p < h + cap implies #[trigger] self.slot_wf(p) by {
                assert(before.slot_wf(p));
                if p != k + cap {
                    assert(self.slot(p) == before.slot(p));
                }
            }
            assert(self.entries() =~= before.entries()) by {
                assert forall|i: int| 0 <= i < t - h implies #[trigger] self.entries()[i]
                    == before.entries()[i] by {
                    assert(self.slot(h + i) == before.slot(h + i));
                }
            }
            assert forall|p: nat| #![auto]
                p < h && t <= p + cap && p != k implies self.slot(p as int) == before.slot(
                p as int,
            ) by {}
            assert(self.leaving() =~= before.leaving().remove(k as nat));
        }
        slot.value.unwrap()
    }

    /// Puts `value` at the end of the queue.
    pub fn push(&mut self, value: T) -> (r: Result<(), PushError<T>>)
        requires
            old(self).wf(),
            old(self).settled(),
        ensures
            final(self).wf(),
            final(self).settled(),
            final(self).same_ring(old(self)),
            final(self).closed() == old(self).closed(),
            r == (if old(self).closed() {
                Err(PushError::Closed(value))
            } else if old(self).items().len() == old(self).spec_capacity() {
                Err(PushError::Full(value))
            } else {
                Ok::<(), PushError<T>>(())
            }),
            r is Ok ==> final(self).items() == old(self).items().push(value),
            r is Err ==> final(self).items() == old(self).items(),
            old(self).items().len() <= old(self).spec_capacity(),
    {
        let ghost before = *self;
        proof {
            before.lemma_settled_bounds();
        }
        match self.start_push() {
            PushStep::Claimed(ticket) => {
                let ghost mid = *self;
                self.finish_push(ticket, value);
                proof {
                    assert(self.entries() =~= before.entries().push(Some(value)));
                    assert(self.items() =~= before.items().push(value));
                }
                Ok(())
            },
            PushStep::Full => Err(PushError::Full(value)),
            PushStep::Closed => Err(PushError::Closed(value)),
            PushStep::Busy => Err(PushError::Full(value)),
        }
    }

    /// Takes the first item out of the queue.
    pub fn pop(&mut self) -> (r: Result<T, PopError>)
        requires
            old(self).wf(),
            old(self).settled(),
        ensures
            final(self).wf(),
            final(self).settled(),
            final(self).same_ring(old(self)),
            final(self).closed() == old(self).closed(),
            match r {
                Ok(value) => {
                    &&& old(self).items().len() > 0
                    &&& value == old(self).items()[0]
                    &&& final(self).items() == old(self).items().drop_first()
                },
                Err(error) => {
                    &&& old(self).items().len() == 0
                    &&& final(self).items() == old(self).items()
                    &&& error == (if old(self).closed() {
                        PopError::Closed
                    } else {
                        PopError::Empty
                    })
                },
            },
    {
        let ghost before = *self;
        match self.start_pop() {
            PopStep::Claimed(ticket) => {
                let r = self.finish_pop(ticket);
                proof {
                    assert(self.items() =~= before.items().drop_first());
                    assert(self.leaving() =~= Map::empty());
                }
                Ok(r)
            },
            PopStep::Empty => Err(PopError::Empty),
            PopStep::Closed => Err(PopError::Closed),
            PopStep::Busy => {
                proof {
                    before.lemma_settled_bounds();
                }
                Err(PopError::Empty)
            },
        }
    }

    proof fn lemma_settled_bounds(&self)
        requires
            self.wf(),
        ensures
            self.entries().len() <= self.spec_capacity(),
            self.spec_capacity() > 0,
    {
    }

    /// How many items are in the queue, those counted in that are still to be filled in.
    pub fn len(&self) -> (r: usize)
        requires
            self.wf(),
        ensures
            r == self.entries().len(),
    {
        let ghost h: int = self.popped@ as int;
        let ghost t: int = self.pushed@ as int;
        let ghost cap: int = self.cap();
        proof {
            self.lemma_at(h);
            self.lemma_at(t);
        }
        let hix: usize = self.head % self.mark_bit;
        let tix: usize = self.tail % self.mark_bit;
        proof {
            lemma_distance(h, t, cap);
            if t == h + cap {
                self.lemma_at(h);
            }
        }
        if hix < tix {
            tix - hix
        } else if hix > tix {
            self.buffer.len() - hix + tix
        } else if self.is_empty() {
            0
        } else {
            self.buffer.len()
        }
    }

    pub fn is_empty(&self) -> (r: bool)
        requires
            self.wf(),
        ensures
            r == (self.entries().len() == 0),
    {
        let ghost h: int = self.popped@ as int;
        let ghost t: int = self.pushed@ as int;
        proof {
            self.lemma_at(h);
            self.lemma_at(t);
            if h < t {
                lemma_word_distinct(
                    h,
                    t,
                    self.cap(),
                    self.mark_bit as int,
                    self.one_lap as int,
                );
            }
        }
        if self.tail % self.one_lap >= self.mark_bit {
            self.tail - self.mark_bit == self.head
        } else {
            self.tail == self.head
        }
    }

    pub fn is_full(&self) -> (r: bool)
        requires
            self.wf(),
        ensures
            r == (self.entries().len() == self.spec_capacity()),
    {
        let ghost h: int = self.popped@ as int;
        let ghost t: int = self.pushed@ as int;
        proof {
            self.lemma_at(h);
            self.lemma_at(t);
            if t < h + self.cap() {
                lemma_word_distinct(
                    t,
                    h + self.cap(),
                    self.cap(),
                    self.mark_bit as int,
                    self.one_lap as int,
                );
            }
        }
        let tail: usize = if self.tail % self.one_lap >= self.mark_bit {
            self.tail - self.mark_bit
        } else {
            self.tail
        };
        self.head.wrapping_add(self.one_lap) == tail
    }

    pub fn capacity(&self) -> (r: usize)
        requires
            self.wf(),
        ensures
            r == self.spec_capacity(),
    {
        self.buffer.len()
    }

    /// Closes the queue; says whether it was open until now.
    pub fn close(&mut self) -> (r: bool)
        requires
            old(self).wf(),
        ensures
            final(self).wf(),
            final(self).same_ring(old(self)),
            final(self).closed(),
            final(self).first() == old(self).first(),
            final(self).entries() == old(self).entries(),
            final(self).leaving() == old(self).leaving(),
            r == !old(self).closed(),
    {
        let ghost before = *self;
        proof {
            self.lemma_at(self.pushed@ as int);
        }
        if self.tail % self.one_lap >= self.mark_bit {
            return false;
        }
        self.tail = self.tail + self.mark_bit;
        proof {
            assert forall|p: int|
                self.popped@ <= p < self.popped@ + self.cap() implies #[trigger] self.slot_wf(
                p,
            ) by {
                assert(before.slot_wf(p));
            }
            assert(self.entries() =~= before.entries());
            assert(self.leaving() =~= before.leaving());
        }
        true
    }

    pub fn is_closed(&self) -> (r: bool)
        requires
            self.wf(),
        ensures
            r == self.closed(),
    {
        self.tail % self.one_lap >= self.mark_bit
    }
}

proof fn lemma_sizes(cap: int, mark_bit: int, e: nat)
    requires
        0 < cap < mark_bit,
        mark_bit == pow2(e),
        2 * mark_bit <= usize::MAX,
    ensures
        sizes(cap, mark_bit, 2 * mark_bit),
{
    lemma2_to64();
    lemma_pow2_unfold((e + 1) as nat);
    let w: nat = if usize::BITS == 32 {
        32
    } else {
        64
    };
    assert(usize::MAX + 1 == pow2(w));
    if e + 1 >= w {
        if e + 1 > w {
            lemma_pow2_strictly_increases(w, (e + 1) as nat);
        }
        assert(false);
    }
    let f: nat = (w - e - 1) as nat;
    lemma_pow2_adds((e + 1) as nat, f);
    lemma_pow2_unfold(f);
    lemma_pow2_pos((f - 1) as nat);
    let one_lap: int = 2 * mark_bit;
    assert(one_lap * pow2(f) == usize::MAX + 1);
    assert(pow2(f) * one_lap == usize::MAX + 1) by (nonlinear_arith)
        requires
            one_lap * pow2(f) == usize::MAX + 1,
    ;
    lemma_fundamental_div_mod_converse(usize::MAX + 1, one_lap, pow2(f) as int, 0);
}

/// How far apart two claims are, from the numbers of their slots.
proof fn lemma_distance(h: int, t: int, cap: int)
    requires
        0 <= h <= t <= h + cap,
        cap > 0,
    ensures
        h % cap < t % cap ==> t - h == t % cap - h % cap,
        h % cap > t % cap ==> t - h == cap - h % cap + t % cap,
        h % cap == t % cap ==> t == h || t == h + cap,
{
    lemma_fundamental_div_mod(h, cap);
    lemma_fundamental_div_mod(t, cap);
    let d: int = t / cap - h / cap;
    assert(cap * (t / cap) - cap * (h / cap) == cap * d) by (nonlinear_arith)
        requires
            d == t / cap - h / cap,
    ;
    assert(d >= 0) by (nonlinear_arith)
        requires
            cap * d > -cap,
            cap > 0,
    ;
    assert(d <= 1) by (nonlinear_arith)
        requires
            cap * d < 2 * cap,
            cap > 0,
    ;
    assert(cap * 0 == 0 && cap * 1 == cap);
}

} // verus!
