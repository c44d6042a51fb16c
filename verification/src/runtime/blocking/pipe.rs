//! A ring of bytes between a thread that blocks and a task.
//!
//! The positions of both ends run through twice the size of the ring, which tells an empty ring
//! from a full one. Each side knows the position of the other side from the last time that it
//! looked, and looks again only if it cannot go on.

use vstd::prelude::*;
use vstd::arithmetic::div_mod::{
    lemma_fundamental_div_mod, lemma_fundamental_div_mod_converse,
};
use vstd::slice::slice_subrange;
use crate::io::error::Error;
use crate::io::stream::{copy_bytes, reads_whole, Read, Write};
use crate::platform::event::listener::{greatest, least};
use crate::task::{Context, Poll, Wake, Waker};

verus! {

/// How many bytes are moved at once at most.
pub const CHUNK: usize = 131072;

/// What both sides share.
pub struct Pipe {
    head: usize,
    tail: usize,
    reader: Option<Waker>,
    writer: Option<Waker>,
    closed: bool,
    buffer: Vec<u8>,
    cap: usize,
    /// How many bytes were taken out and put in so far.
    taken: Ghost<nat>,
    sent: Ghost<nat>,
}

/// The side that takes bytes out.
pub struct Reader {
    head: usize,
    tail: usize,
    /// How many bytes are known to have been put in.
    known: Ghost<nat>,
}

/// The side that puts bytes in.
pub struct Writer {
    head: usize,
    tail: usize,
    zeroed_until: usize,
    /// How many bytes are known to have been taken out.
    known: Ghost<nat>,
}

proof fn lemma_ring(p: int, cap: int)
    requires
        p >= 0,
        cap > 0,
    ensures
        0 <= p % (2 * cap) < 2 * cap,
        0 <= p % cap < cap,
        p % cap == (if p % (2 * cap) < cap {
            p % (2 * cap)
        } else {
            p % (2 * cap) - cap
        }),
{
    let m: int = 2 * cap;
    let r: int = p % m;
    let q: int = p / m;
    lemma_fundamental_div_mod(p, m);
    assert(m * q == (2 * q) * cap && (2 * q + 1) * cap == (2 * q) * cap + cap) by (nonlinear_arith)
        requires
            m == 2 * cap,
    ;
    if r < cap {
        lemma_fundamental_div_mod_converse(p, cap, 2 * q, r);
    } else {
        lemma_fundamental_div_mod_converse(p, cap, 2 * q + 1, r - cap);
    }
}

/// Going `n` bytes further without passing the end of the ring.
proof fn lemma_advance(p: int, n: int, cap: int)
    requires
        p >= 0,
        cap > 0,
        0 <= n <= cap - p % cap,
    ensures
        (p + n) % (2 * cap) == (if p % (2 * cap) + n < 2 * cap {
            p % (2 * cap) + n
        } else {
            0
        }),
        (p + n) % cap == (if p % cap + n < cap {
            p % cap + n
        } else {
            0
        }),
        forall|i: int| 0 <= i < n ==> #[trigger] ((p + i) % cap) == p % cap + i,
{
    lemma_ring(p, cap);
    let m: int = 2 * cap;
    let r: int = p % m;
    let q: int = p / m;
    lemma_fundamental_div_mod(p, m);
    assert((q + 1) * m == q * m + m && q * m == m * q) by (nonlinear_arith);
    if r + n < m {
        lemma_fundamental_div_mod_converse(p + n, m, q, r + n);
    } else {
        lemma_fundamental_div_mod_converse(p + n, m, q + 1, 0);
    }
    lemma_fundamental_div_mod(p, cap);
    let c: int = p / cap;
    assert(c * cap == cap * c && (c + 1) * cap == c * cap + cap) by (nonlinear_arith);
    if p % cap + n < cap {
        lemma_fundamental_div_mod_converse(p + n, cap, c, p % cap + n);
    } else {
        lemma_fundamental_div_mod_converse(p + n, cap, c + 1, 0);
    }
    assert forall|i: int| 0 <= i < n implies #[trigger] ((p + i) % cap) == p % cap + i by {
        lemma_fundamental_div_mod_converse(p + i, cap, c, p % cap + i);
    }
}

/// How far apart two positions are.
proof fn lemma_apart(x: int, y: int, cap: int)
    requires
        0 <= x <= y <= x + cap,
        cap > 0,
    ensures
        x % (2 * cap) <= y % (2 * cap) ==> y - x == y % (2 * cap) - x % (2 * cap),
        x % (2 * cap) > y % (2 * cap) ==> y - x == 2 * cap - (x % (2 * cap) - y % (2 * cap)),
{
    let m: int = 2 * cap;
    lemma_fundamental_div_mod(x, m);
    lemma_fundamental_div_mod(y, m);
    let d: int = y / m - x / m;
    assert(m * (y / m) - m * (x / m) == m * d) by (nonlinear_arith)
        requires
            d == y / m - x / m,
    ;
    assert(d >= 0) by (nonlinear_arith)
        requires
            m * d > -m,
            m > 0,
    ;
    assert(d <= 1) by (nonlinear_arith)
        requires
            m * d < 2 * m,
            m > 0,
    ;
    assert(m * 0 == 0 && m * 1 == m);
}

/// Two positions less than the ring apart are different places in it.
proof fn lemma_places(x: int, y: int, cap: int)
    requires
        0 <= x < y < x + cap,
    ensures
        x % cap != y % cap,
{
    if x % cap == y % cap {
        lemma_fundamental_div_mod(x, cap);
        lemma_fundamental_div_mod(y, cap);
        let d: int = y / cap - x / cap;
        assert(cap * (y / cap) - cap * (x / cap) == cap * d) by (nonlinear_arith)
            requires
                d == y / cap - x / cap,
        ;
        assert(false) by (nonlinear_arith)
            requires
                0 < cap * d < cap,
                cap > 0,
        ;
    }
}

/// How far it is from the position `a` to the position `b`.
fn distance(a: usize, b: usize, cap: usize) -> (r: usize)
    requires
        2 * cap <= usize::MAX,
        a < 2 * cap,
        b < 2 * cap,
    ensures
        r == (if a <= b {
            b - a
        } else {
            2 * cap - (a - b)
        }),
{
    if a <= b {
        b - a
    } else {
        2 * cap - (a - b)
    }
}

/// The place in the ring that a position stands for.
fn real_index(i: usize, cap: usize) -> (r: usize)
    requires
        2 * cap <= usize::MAX,
        i < 2 * cap,
    ensures
        r == (if i < cap {
            i as int
        } else {
            i - cap
        }),
{
    if i < cap {
        i
    } else {
        i - cap
    }
}

fn minimum(a: usize, b: usize) -> (r: usize)
    ensures
        r == (if a < b {
            a
        } else {
            b
        }),
{
    if a < b {
        a
    } else {
        b
    }
}

/// Gives way to other tasks once in a while: whenever the lot is zero.
pub fn maybe_yield(cx: &mut Context, lot: usize) -> (r: Poll<()>)
    ensures
        final(cx).waker == old(cx).waker,
        (r is Pending) == (lot == 0),
        final(cx).woken@ == (if lot == 0 {
            old(cx).woken@.push(Wake::Task(old(cx).waker))
        } else {
            old(cx).woken@
        }),
{
    if lot == 0 {
        cx.wake_by_ref();
        Poll::Pending
    } else {
        Poll::Ready(())
    }
}

/// What waking up whoever is registered adds to those who are woken up.
pub open spec fn wake_of(waker: Option<Waker>) -> Seq<Wake> {
    match waker {
        Some(waker) => seq![Wake::Task(waker)],
        None => Seq::empty(),
    }
}

/// How far it is to the end of a ring of `cap` bytes once `n` of the `run` bytes before it were
/// passed.
pub open spec fn run_on(run: nat, n: nat, cap: nat) -> nat {
    if n < run {
        (run - n) as nat
    } else {
        cap
    }
}

/// A pipe that is being emptied: where its bytes go, how many of them went there, and how many there
/// are up to the end of the ring.
pub ghost struct Draining<D> {
    pub dest: D,
    pub taken: nat,
    pub run: nat,
}

impl<D: Write> Draining<D> {
    /// The bytes that are offered next, if `all` is in the pipe and `visible` of it known.
    pub open spec fn offered(self, all: Seq<u8>, visible: nat) -> Seq<u8> {
        all.skip(self.taken as int).take(
            least(least(CHUNK as int, visible - self.taken), self.run as int),
        )
    }

    /// Of the bytes that were offered `m` were taken, which led to `next`.
    pub open spec fn step(self, all: Seq<u8>, visible: nat, cap: nat, m: usize, next: Self) -> bool {
        &&& self.dest.writes(self.offered(all, visible), Ok(m), next.dest)
        &&& 0 < m <= self.offered(all, visible).len()
        &&& next.taken == self.taken + m
        &&& next.run == run_on(self.run, m as nat, cap)
    }

    /// Bytes were offered and taken `n` times, which led to `next`.
    pub open spec fn steps(self, all: Seq<u8>, visible: nat, cap: nat, n: nat, next: Self) -> bool
        decreases n,
    {
        if n == 0 {
            next == self
        } else {
            exists|mid: Self, m: usize|
                {
                    &&& self.steps(all, visible, cap, (n - 1) as nat, mid)
                    &&& #[trigger] mid.step(all, visible, cap, m, next)
                }
        }
    }

    /// After `n` times it was at `mid`, when nothing was taken of what was offered, or an error came
    /// of it.
    pub open spec fn ends(
        self,
        all: Seq<u8>,
        visible: nat,
        cap: nat,
        n: nat,
        mid: Self,
        r: Poll<Result<usize, Error>>,
        dest: D,
    ) -> bool {
        &&& self.steps(all, visible, cap, n, mid)
        &&& match r {
            Poll::Ready(Ok(count)) => {
                &&& mid.dest.writes(mid.offered(all, visible), Ok(0), dest)
                &&& count == mid.taken
            },
            Poll::Ready(Err(e)) => mid.dest.writes(mid.offered(all, visible), Err(e), dest),
            Poll::Pending => false,
        }
    }
}

/// A pipe that is being filled: where its bytes come from, how many of them came, how many places
/// there are up to the end of the ring, and how many of the ring were made ready.
pub ghost struct Filling<S> {
    pub src: S,
    pub put: nat,
    pub run: nat,
    pub zeroed: nat,
}

impl<S: Read> Filling<S> {
    /// How many bytes are asked for next, if there is known to be room for `visible`.
    pub open spec fn demand(self, visible: nat) -> int {
        least(
            least(least(CHUNK as int, 2 * self.zeroed + 4096int), visible - self.put),
            self.run as int,
        )
    }

    /// Of the bytes that were asked for `m` came, which led to `next`.
    pub open spec fn step(
        self,
        visible: nat,
        cap: nat,
        room: Seq<u8>,
        m: usize,
        buf: Seq<u8>,
        next: Self,
    ) -> bool {
        &&& self.src.reads(room, Ok(m), next.src, buf)
        &&& room.len() == self.demand(visible)
        &&& 0 < m <= room.len()
        &&& next.put == self.put + m
        &&& next.run == run_on(self.run, m as nat, cap)
        &&& next.zeroed == greatest(self.zeroed as int, cap - self.run + room.len())
    }

    /// Bytes were asked for and came `n` times, which led to `next`.
    pub open spec fn steps(self, visible: nat, cap: nat, n: nat, next: Self) -> bool
        decreases n,
    {
        if n == 0 {
            next == self
        } else {
            exists|mid: Self, room: Seq<u8>, m: usize, buf: Seq<u8>|
                {
                    &&& self.steps(visible, cap, (n - 1) as nat, mid)
                    &&& #[trigger] mid.step(visible, cap, room, m, buf, next)
                }
        }
    }

    /// After `n` times it was at `mid`, when nothing came of what was asked for, or an error came of
    /// it.
    pub open spec fn ends(
        self,
        visible: nat,
        cap: nat,
        n: nat,
        mid: Self,
        room: Seq<u8>,
        buf: Seq<u8>,
        r: Poll<Result<usize, Error>>,
        src: S,
    ) -> bool {
        &&& self.steps(visible, cap, n, mid)
        &&& room.len() == mid.demand(visible)
        &&& match r {
            Poll::Ready(Ok(count)) => mid.src.reads(room, Ok(0), src, buf) && count == mid.put,
            Poll::Ready(Err(e)) => mid.src.reads(room, Err(e), src, buf),
            Poll::Pending => false,
        }
    }
}

/// Makes a pipe for `cap` bytes.
pub fn pipe(cap: usize) -> (r: (Pipe, Reader, Writer))
    requires
        0 < cap,
        2 * cap <= usize::MAX,
    ensures
        r.0.wf(),
        r.1.wf(&r.0),
        r.2.wf(&r.0),
        r.0.capacity() == cap,
        r.0.content() == Seq::<u8>::empty(),
        !r.0.closed(),
        r.0.reader() is None,
        r.0.writer() is None,
        r.0.attended(),
        r.1.known(&r.0) == 0,
        r.1.run(&r.0) == cap,
        r.2.known(&r.0) == cap,
        r.2.run(&r.0) == cap,
        r.2.zeroed() == 0,
{
    let p = Pipe {
        head: 0,
        tail: 0,
        reader: None,
        writer: None,
        closed: false,
        buffer: Vec::new(),
        cap,
        taken: Ghost(0),
        sent: Ghost(0),
    };
    let r = Reader { head: 0, tail: 0, known: Ghost(0) };
    let w = Writer { head: 0, tail: 0, zeroed_until: 0, known: Ghost(0) };
    assert(p.content() =~= Seq::<u8>::empty());
    (p, r, w)
}

impl Pipe {
    pub closed spec fn wf(&self) -> bool {
        let h = self.taken@;
        let t = self.sent@;
        &&& 0 < self.cap
        &&& 2 * self.cap <= usize::MAX
        &&& h <= t <= h + self.cap
        &&& self.head == h as int % (2 * self.cap)
        &&& self.tail == t as int % (2 * self.cap)
        &&& self.buffer@.len() <= self.cap
        &&& forall|p: int|
            h <= p < t ==> 0 <= #[trigger] (p % (self.cap as int)) < self.buffer@.len()
    }

    pub closed spec fn capacity(&self) -> usize {
        self.cap
    }

    /// The bytes in the pipe.
    pub closed spec fn content(&self) -> Seq<u8> {
        Seq::new(
            (self.sent@ - self.taken@) as nat,
            |i: int| self.buffer@[(self.taken@ + i) % (self.cap as int)],
        )
    }

    /// One of the sides has gone.
    pub closed spec fn closed(&self) -> bool {
        self.closed
    }

    /// Whom to wake up when there are bytes.
    pub closed spec fn reader(&self) -> Option<Waker> {
        self.reader
    }

    /// Whom to wake up when there is room.
    pub closed spec fn writer(&self) -> Option<Waker> {
        self.writer
    }

    /// The bytes, and whether the pipe is closed, are as they were.
    pub open spec fn same_content(&self, other: &Self) -> bool {
        &&& self.content() == other.content()
        &&& self.closed() == other.closed()
        &&& self.capacity() == other.capacity()
    }

    /// Nobody waits in vain: who waits to read waits for bytes where there are none, and who waits to
    /// write waits for room where there is none.
    pub open spec fn attended(&self) -> bool {
        &&& self.reader() is Some ==> self.content().len() == 0
        &&& self.writer() is Some ==> self.content().len() == self.capacity()
    }

    /// There are no more bytes in the pipe than it is for.
    pub proof fn lemma_capacity(&self)
        requires
            self.wf(),
        ensures
            0 < self.capacity(),
            2 * self.capacity() <= usize::MAX,
            self.content().len() <= self.capacity(),
    {
    }
}

impl Reader {
    pub closed spec fn wf(&self, pipe: &Pipe) -> bool {
        &&& self.head == pipe.head
        &&& pipe.taken@ <= self.known@ <= pipe.sent@
        &&& self.tail == self.known@ as int % (2 * pipe.cap)
    }

    /// How many bytes are known to be in the pipe.
    pub closed spec fn known(&self, pipe: &Pipe) -> nat {
        (self.known@ - pipe.taken@) as nat
    }

    /// How many bytes there are from the next one to the end of the ring.
    pub closed spec fn run(&self, pipe: &Pipe) -> nat {
        (pipe.cap - pipe.taken@ as int % (pipe.cap as int)) as nat
    }

    /// How many bytes are offered at once.
    pub open spec fn offer(&self, pipe: &Pipe) -> int {
        least(least(CHUNK as int, self.known(pipe) as int), self.run(pipe) as int)
    }

    /// What the writer did has not changed what the reader knows.
    pub open spec fn stays(&self, before: &Pipe, after: &Pipe) -> bool {
        &&& self.wf(after)
        &&& self.known(after) == self.known(before)
        &&& self.run(after) == self.run(before)
    }

    /// No more bytes are known to be in the pipe than are there.
    pub proof fn lemma_known(&self, pipe: &Pipe)
        requires
            pipe.wf(),
            self.wf(pipe),
        ensures
            self.known(pipe) <= pipe.content().len(),
            0 < self.run(pipe) <= pipe.capacity(),
    {
        lemma_ring(pipe.taken@ as int, pipe.cap as int);
    }

    /// How many bytes are known to be in the pipe once it was looked for where none were known.
    pub open spec fn visible(&self, pipe: &Pipe) -> nat {
        if self.known(pipe) == 0 {
            pipe.content().len()
        } else {
            self.known(pipe)
        }
    }

    /// Waits for bytes; says whether there are any, which there are not if the pipe is closed.
    pub fn ready(&mut self, pipe: &mut Pipe, cx: &mut Context, lot: usize) -> (r: Poll<bool>)
        requires
            old(pipe).wf(),
            old(self).wf(old(pipe)),
        ensures
            final(pipe).wf(),
            old(pipe).attended() ==> final(pipe).attended(),
            final(self).wf(final(pipe)),
            final(pipe).same_content(old(pipe)),
            final(pipe).writer() == old(pipe).writer(),
            final(cx).waker == old(cx).waker,
            final(self).known(final(pipe)) == old(self).visible(old(pipe)),
            final(self).run(final(pipe)) == old(self).run(old(pipe)),
            if old(self).visible(old(pipe)) == 0 {
                &&& final(pipe).reader() == Some(old(cx).waker)
                &&& final(cx).woken@ == old(cx).woken@
                &&& r == (if old(pipe).closed() {
                    Poll::Ready(false)
                } else {
                    Poll::Pending
                })
            } else {
                &&& final(pipe).reader() is None
                &&& final(cx).woken@ == (if lot == 0 {
                    old(cx).woken@.push(Wake::Task(old(cx).waker))
                } else {
                    old(cx).woken@
                })
                &&& r == (if lot == 0 {
                    Poll::Pending
                } else {
                    Poll::Ready(true)
                })
            },
            forall|writer: &Writer| #[trigger]
                writer.wf(old(pipe)) ==> writer.stays(old(pipe), final(pipe)),
    {
        let ghost h: int = pipe.taken@ as int;
        proof {
            lemma_ring(h, pipe.cap as int);
            lemma_ring(self.known@ as int, pipe.cap as int);
            lemma_ring(pipe.sent@ as int, pipe.cap as int);
            lemma_apart(h, self.known@ as int, pipe.cap as int);
            lemma_apart(h, pipe.sent@ as int, pipe.cap as int);
        }
        if distance(self.head, self.tail, pipe.cap) == 0 {
            self.tail = pipe.tail;
            proof {
                self.known = pipe.sent;
            }
            if distance(self.head, self.tail, pipe.cap) == 0 {
                pipe.reader = Some(cx.waker);
                self.tail = pipe.tail;
                if distance(self.head, self.tail, pipe.cap) == 0 {
                    return if pipe.closed {
                        Poll::Ready(false)
                    } else {
                        Poll::Pending
                    };
                }
            }
        }
        pipe.reader = None;
        match maybe_yield(cx, lot) {
            Poll::Ready(_) => Poll::Ready(true),
            Poll::Pending => Poll::Pending,
        }
    }

    /// The next bytes that can be taken out at once.
    pub fn peek<'a>(&self, pipe: &'a Pipe) -> (r: &'a [u8])
        requires
            pipe.wf(),
            self.wf(pipe),
        ensures
            self.known(pipe) <= pipe.content().len(),
            r@.len() == self.offer(pipe),
            r@ == pipe.content().take(self.offer(pipe)),
            self.known(pipe) > 0 ==> r@.len() > 0,
    {
        let ghost h: int = pipe.taken@ as int;
        let cap: usize = pipe.cap;
        proof {
            lemma_ring(h, cap as int);
            lemma_ring(self.known@ as int, cap as int);
            lemma_apart(h, self.known@ as int, cap as int);
        }
        let from: usize = real_index(self.head, cap);
        let n: usize = minimum(
            minimum(CHUNK, distance(self.head, self.tail, cap)),
            cap - from,
        );
        proof {
            lemma_advance(h, n as int, cap as int);
            if n > 0 {
                assert((h + (n - 1)) % (cap as int) == from + (n - 1));
            }
        }
        if n == 0 {
            let r = slice_subrange(pipe.buffer.as_slice(), 0, 0);
            assert(r@ =~= pipe.content().take(0));
            return r;
        }
        let r = slice_subrange(pipe.buffer.as_slice(), from, from + n);
        assert(r@ =~= pipe.content().take(n as int)) by {
            assert forall|i: int| 0 <= i < n implies r@[i] == #[trigger] pipe.content()[i] by {
                assert((h + i) % (cap as int) == from + i);
            }
        }
        r
    }

    /// Takes out the next `n` bytes and wakes up the other side.
    pub fn consume(&mut self, pipe: &mut Pipe, n: usize, cx: &mut Context)
        requires
            old(pipe).wf(),
            old(self).wf(old(pipe)),
            n <= old(self).known(old(pipe)),
            n <= old(self).run(old(pipe)),
        ensures
            final(pipe).wf(),
            old(pipe).attended() ==> final(pipe).attended(),
            final(self).wf(final(pipe)),
            final(self).known(final(pipe)) == old(self).known(old(pipe)) - n,
            final(self).run(final(pipe)) == run_on(
                old(self).run(old(pipe)),
                n as nat,
                old(pipe).capacity() as nat,
            ),
            n <= old(pipe).content().len(),
            final(pipe).content() == old(pipe).content().skip(n as int),
            final(pipe).closed() == old(pipe).closed(),
            final(pipe).capacity() == old(pipe).capacity(),
            final(pipe).reader() == old(pipe).reader(),
            final(pipe).writer() is None,
            final(cx).waker == old(cx).waker,
            final(cx).woken@ == old(cx).woken@ + wake_of(old(pipe).writer()),
            forall|writer: &Writer| #[trigger]
                writer.wf(old(pipe)) ==> writer.stays(old(pipe), final(pipe)),
    {
        let ghost h: int = pipe.taken@ as int;
        let cap: usize = pipe.cap;
        proof {
            lemma_ring(h, cap as int);
            lemma_advance(h, n as int, cap as int);
        }
        if self.head + n < 2 * cap {
            self.head = self.head + n;
        } else {
            self.head = 0;
        }
        pipe.head = self.head;
        proof {
            pipe.taken = Ghost((h + n) as nat);
            assert(pipe.content() =~= old(pipe).content().skip(n as int));
        }
        match pipe.writer.take() {
            Some(waker) => {
                cx.woken.push(Wake::Task(waker));
                assert(cx.woken@ =~= old(cx).woken@ + wake_of(old(pipe).writer));
            },
            None => {
                assert(cx.woken@ =~= old(cx).woken@ + wake_of(old(pipe).writer));
            },
        }
    }

    /// Moves the bytes that are known to be in the pipe to `dest`, as far as it takes them.
    pub fn drain<D: Write>(
        &mut self,
        pipe: &mut Pipe,
        cx: &mut Context,
        dest: &mut D,
        lot: usize,
    ) -> (r: Poll<Result<usize, Error>>)
        requires
            old(pipe).wf(),
            old(self).wf(old(pipe)),
        ensures
            final(pipe).wf(),
            old(pipe).attended() ==> final(pipe).attended(),
            final(self).wf(final(pipe)),
            final(pipe).closed() == old(pipe).closed(),
            final(pipe).capacity() == old(pipe).capacity(),
            final(cx).waker == old(cx).waker,
            old(dest).reliable() ==> final(dest).reliable() && !(r matches Poll::Ready(Err(_))),
            r is Ready && old(self).visible(old(pipe)) > 0 ==> exists|n: nat, mid: Draining<D>|
                #[trigger] (Draining {
                    dest: *old(dest),
                    taken: 0,
                    run: old(self).run(old(pipe)),
                }).ends(
                    old(pipe).content(),
                    old(self).visible(old(pipe)),
                    old(pipe).capacity() as nat,
                    n,
                    mid,
                    r,
                    *final(dest),
                ),
            final(dest).limit() == old(dest).limit(),
            old(dest).limit() matches Some(limit) && old(dest).written().len() <= limit ==> final(dest).written().len() <= old(dest).limit()->0,
            ({
                let all = old(pipe).content();
                let visible = old(self).visible(old(pipe));
                let n = final(dest).written().len() - old(dest).written().len();
                &&& 0 <= n <= visible <= all.len()
                &&& final(dest).written() == old(dest).written() + all.take(n)
                &&& final(pipe).content() == all.skip(n)
                &&& r is Pending <==> visible == 0 && !old(pipe).closed() || visible > 0 && lot
                    == 0
                &&& r is Pending ==> n == 0
                &&& final(self).known(final(pipe)) == visible - n
                &&& r matches Poll::Ready(Ok(count)) ==> count == n
                &&& r matches Poll::Ready(Ok(count)) ==> (count < visible ==> final(dest).full())
                &&& final(pipe).reader() == (if visible == 0 {
                    Some(old(cx).waker)
                } else {
                    None
                })
                &&& if n > 0 {
                    &&& final(pipe).writer() is None
                    &&& final(cx).woken@ == old(cx).woken@ + wake_of(old(pipe).writer())
                } else {
                    &&& final(pipe).writer() == old(pipe).writer()
                    &&& final(cx).woken@ == (if visible > 0 && lot == 0 {
                        old(cx).woken@.push(Wake::Task(old(cx).waker))
                    } else {
                        old(cx).woken@
                    })
                }
            }),
            forall|writer: &Writer| #[trigger]
                writer.wf(old(pipe)) ==> writer.stays(old(pipe), final(pipe)),
    {
        let ghost all = pipe.content();
        let ghost visible = self.visible(pipe);
        let ghost start = dest.written();
        proof {
            assert(all.take(0) =~= Seq::<u8>::empty());
            assert(start + all.take(0) =~= start);
            assert(all.skip(0) =~= all);
        }
        match self.ready(pipe, cx, lot) {
            Poll::Pending => return Poll::Pending,
            Poll::Ready(false) => return Poll::Ready(Ok(0)),
            Poll::Ready(true) => {},
        }
        let mut count: usize = 0;
        let ghost cap = pipe.capacity() as nat;
        let ghost from = Draining { dest: *dest, taken: 0, run: self.run(pipe) };
        let ghost mut rounds: nat = 0;
        loop
            invariant
                pipe.wf(),
                self.wf(pipe),
                cap == pipe.capacity(),
                from == (Draining { dest: *old(dest), taken: 0, run: old(self).run(old(pipe)) }),
                from.steps(
                    all,
                    visible,
                    cap,
                    rounds,
                    Draining { dest: *dest, taken: count as nat, run: self.run(pipe) },
                ),
                pipe.closed() == old(pipe).closed(),
                pipe.capacity() == old(pipe).capacity(),
                cx.waker == old(cx).waker,
                old(dest).reliable() ==> dest.reliable(),
                dest.limit() == old(dest).limit(),
                old(dest).limit() matches Some(limit) && old(dest).written().len() <= limit
                    ==> dest.written().len() <= old(dest).limit()->0,
                all == old(pipe).content(),
                visible == old(self).visible(old(pipe)),
                start == old(dest).written(),
                visible > 0,
                lot != 0,
                count <= visible <= all.len() <= usize::MAX,
                self.known(pipe) == visible - count,
                dest.written() == start + all.take(count as int),
                pipe.content() == all.skip(count as int),
                pipe.reader() is None,
                count == 0 ==> pipe.writer() == old(pipe).writer() && cx.woken@ == old(cx).woken@,
                count > 0 ==> pipe.writer() is None && cx.woken@ == old(cx).woken@ + wake_of(
                    old(pipe).writer(),
                ),
                forall|writer: &Writer| #[trigger]
                    writer.wf(old(pipe)) ==> writer.stays(old(pipe), pipe),
            decreases visible - count,
        {
            let chunk = self.peek(pipe);
            let ghost part = chunk@;
            let ghost mid = Draining { dest: *dest, taken: count as nat, run: self.run(pipe) };
            assert(part == mid.offered(all, visible));
            let n: usize = match dest.write(chunk) {
                Ok(n) => n,
                Err(error) => {
                    let r = Poll::Ready(Err(error));
                    assert(from.ends(all, visible, cap, rounds, mid, r, *dest));
                    return r;
                },
            };
            proof {
                assert(part.take(n as int) =~= all.skip(count as int).take(n as int));
                assert(all.take(count as int) + all.skip(count as int).take(n as int)
                    =~= all.take(count + n));
                assert(start + all.take(count as int) + all.skip(count as int).take(n as int)
                    =~= start + all.take(count + n));
            }
            if n == 0 {
                let r = Poll::Ready(Ok(count));
                assert(from.ends(all, visible, cap, rounds, mid, r, *dest));
                return r;
            }
            self.consume(pipe, n, cx);
            proof {
                let next = Draining { dest: *dest, taken: (count + n) as nat, run: self.run(pipe) };
                assert(mid.step(all, visible, cap, n, next));
                rounds = rounds + 1;
                assert(all.skip(count as int).skip(n as int) =~= all.skip(count + n));
                assert(old(cx).woken@ + wake_of(old(pipe).writer()) + wake_of(None)
                    =~= old(cx).woken@ + wake_of(old(pipe).writer()));
            }
            count = count + n;
        }
    }

    /// Closes the pipe and wakes up the other side.
    pub fn drop(self, pipe: &mut Pipe, woken: &mut Vec<Wake>)
        requires
            old(pipe).wf(),
        ensures
            final(pipe).wf(),
            old(pipe).attended() ==> final(pipe).attended(),
            final(pipe).closed(),
            final(pipe).content() == old(pipe).content(),
            final(pipe).capacity() == old(pipe).capacity(),
            final(pipe).reader() == old(pipe).reader(),
            final(pipe).writer() is None,
            final(woken)@ == old(woken)@ + wake_of(old(pipe).writer()),
            forall|writer: &Writer| #[trigger]
                writer.wf(old(pipe)) ==> writer.stays(old(pipe), final(pipe)),
    {
        pipe.closed = true;
        assert(pipe.content() =~= old(pipe).content());
        match pipe.writer.take() {
            Some(waker) => {
                woken.push(Wake::Task(waker));
                assert(woken@ =~= old(woken)@ + wake_of(old(pipe).writer));
            },
            None => {
                assert(woken@ =~= old(woken)@ + wake_of(old(pipe).writer));
            },
        }
    }
}

impl Writer {
    pub closed spec fn wf(&self, pipe: &Pipe) -> bool {
        &&& self.tail == pipe.tail
        &&& self.known@ <= pipe.taken@
        &&& pipe.sent@ <= self.known@ + pipe.cap
        &&& self.head == self.known@ as int % (2 * pipe.cap)
        &&& self.zeroed_until == pipe.buffer@.len()
    }

    /// How many bytes the pipe is known to have room for.
    pub closed spec fn known(&self, pipe: &Pipe) -> nat {
        (pipe.cap - (pipe.sent@ - self.known@)) as nat
    }

    /// How many bytes there are from the next place to the end of the ring.
    pub closed spec fn run(&self, pipe: &Pipe) -> nat {
        (pipe.cap - pipe.sent@ as int % (pipe.cap as int)) as nat
    }

    /// How many places of the ring were made ready so far.
    pub closed spec fn zeroed(&self) -> nat {
        self.zeroed_until as nat
    }

    /// How many bytes are asked for at once: twice as many as were made ready so far and some more,
    /// but no more than there is known to be room for up to the end of the ring.
    pub open spec fn demand(&self, pipe: &Pipe) -> int {
        least(
            least(least(CHUNK as int, 2 * self.zeroed() + 4096int), self.known(pipe) as int),
            self.run(pipe) as int,
        )
    }

    /// What the reader did has not changed what the writer knows.
    pub open spec fn stays(&self, before: &Pipe, after: &Pipe) -> bool {
        &&& self.wf(after)
        &&& self.known(after) == self.known(before)
        &&& self.run(after) == self.run(before)
    }

    /// The pipe is not known to have more room than it has.
    pub proof fn lemma_known(&self, pipe: &Pipe)
        requires
            pipe.wf(),
            self.wf(pipe),
        ensures
            self.known(pipe) <= pipe.capacity() - pipe.content().len(),
            0 < self.run(pipe) <= pipe.capacity(),
            self.zeroed() <= pipe.capacity(),
    {
        lemma_ring(pipe.sent@ as int, pipe.cap as int);
    }

    /// How many bytes the pipe is known to have room for once it was looked for where none was
    /// known.
    pub open spec fn visible(&self, pipe: &Pipe) -> nat {
        if self.known(pipe) == 0 {
            (pipe.capacity() - pipe.content().len()) as nat
        } else {
            self.known(pipe)
        }
    }

    /// Waits for room; says whether there is any use in it, which there is not if the pipe is
    /// closed.
    pub fn ready(&mut self, pipe: &mut Pipe, cx: &mut Context, lot: usize) -> (r: Poll<bool>)
        requires
            old(pipe).wf(),
            old(self).wf(old(pipe)),
        ensures
            final(pipe).wf(),
            old(pipe).attended() ==> final(pipe).attended(),
            final(self).wf(final(pipe)),
            final(pipe).same_content(old(pipe)),
            final(pipe).reader() == old(pipe).reader(),
            final(cx).waker == old(cx).waker,
            final(self).run(final(pipe)) == old(self).run(old(pipe)),
            final(self).zeroed() == old(self).zeroed(),
            if old(pipe).closed() {
                &&& r == Poll::Ready(false)
                &&& final(pipe).writer() == old(pipe).writer()
                &&& final(cx).woken@ == old(cx).woken@
                &&& final(self).known(final(pipe)) == old(self).known(old(pipe))
            } else if old(self).visible(old(pipe)) == 0 {
                &&& r == Poll::<bool>::Pending
                &&& final(pipe).writer() == Some(old(cx).waker)
                &&& final(cx).woken@ == old(cx).woken@
                &&& final(self).known(final(pipe)) == 0
            } else {
                &&& final(self).known(final(pipe)) == old(self).visible(old(pipe))
                &&& final(pipe).writer() is None
                &&& final(cx).woken@ == (if lot == 0 {
                    old(cx).woken@.push(Wake::Task(old(cx).waker))
                } else {
                    old(cx).woken@
                })
                &&& r == (if lot == 0 {
                    Poll::Pending
                } else {
                    Poll::Ready(true)
                })
            },
            forall|reader: &Reader| #[trigger]
                reader.wf(old(pipe)) ==> reader.stays(old(pipe), final(pipe)),
    {
        if pipe.closed {
            return Poll::Ready(false);
        }
        let cap: usize = pipe.cap;
        let ghost t: int = pipe.sent@ as int;
        proof {
            lemma_ring(t, cap as int);
            lemma_ring(self.known@ as int, cap as int);
            lemma_ring(pipe.taken@ as int, cap as int);
            lemma_apart(self.known@ as int, t, cap as int);
            lemma_apart(pipe.taken@ as int, t, cap as int);
        }
        if distance(self.head, self.tail, cap) == cap {
            self.head = pipe.head;
            proof {
                self.known = pipe.taken;
            }
            if distance(self.head, self.tail, cap) == cap {
                pipe.writer = Some(cx.waker);
                self.head = pipe.head;
                if distance(self.head, self.tail, cap) == cap {
                    return if pipe.closed {
                        Poll::Ready(false)
                    } else {
                        Poll::Pending
                    };
                }
            }
        }
        pipe.writer = None;
        match maybe_yield(cx, lot) {
            Poll::Ready(_) => Poll::Ready(true),
            Poll::Pending => Poll::Pending,
        }
    }

    /// The next `n` bytes go into one run of the ring that was made ready.
    pub open spec fn prepared(&self, pipe: &Pipe, n: nat) -> bool {
        n <= self.zeroed() - (pipe.capacity() - self.run(pipe))
    }

    /// Makes room ready for the next bytes that can be put in at once; says how many.
    pub fn window(&mut self, pipe: &mut Pipe) -> (r: usize)
        requires
            old(pipe).wf(),
            old(self).wf(old(pipe)),
        ensures
            final(pipe).wf(),
            old(pipe).attended() ==> final(pipe).attended(),
            final(self).wf(final(pipe)),
            final(pipe).same_content(old(pipe)),
            final(pipe).reader() == old(pipe).reader(),
            final(pipe).writer() == old(pipe).writer(),
            final(self).known(final(pipe)) == old(self).known(old(pipe)),
            final(self).run(final(pipe)) == old(self).run(old(pipe)),
            r == old(self).demand(old(pipe)),
            old(self).known(old(pipe)) > 0 ==> r > 0,
            final(self).zeroed() == greatest(
                old(self).zeroed() as int,
                old(pipe).capacity() - old(self).run(old(pipe)) + r,
            ),
            final(self).prepared(final(pipe), r as nat),
            forall|reader: &Reader| #[trigger]
                reader.wf(old(pipe)) ==> reader.stays(old(pipe), final(pipe)),
    {
        let cap: usize = pipe.cap;
        let ghost t: int = pipe.sent@ as int;
        proof {
            lemma_ring(t, cap as int);
            lemma_ring(self.known@ as int, cap as int);
            lemma_apart(self.known@ as int, t, cap as int);
        }
        let from: usize = real_index(self.tail, cap);
        let n: usize = minimum(
            minimum(
                minimum(CHUNK, (self.zeroed_until * 2).saturating_add(4096)),
                cap - distance(self.head, self.tail, cap),
            ),
            cap - from,
        );
        let to: usize = from + n;
        if self.zeroed_until < to {
            pipe.buffer.resize(to, 0);
            self.zeroed_until = to;
        }
        proof {
            assert(pipe.content() =~= old(pipe).content());
        }
        n
    }

    /// Puts in the first `n` of `bytes` and wakes up the other side.
    pub fn commit(&mut self, pipe: &mut Pipe, bytes: &[u8], n: usize, cx: &mut Context)
        requires
            old(pipe).wf(),
            old(self).wf(old(pipe)),
            n <= bytes@.len(),
            n <= old(self).known(old(pipe)),
            old(self).prepared(old(pipe), n as nat),
        ensures
            final(pipe).wf(),
            old(pipe).attended() ==> final(pipe).attended(),
            final(self).wf(final(pipe)),
            final(self).known(final(pipe)) == old(self).known(old(pipe)) - n,
            final(self).run(final(pipe)) == run_on(
                old(self).run(old(pipe)),
                n as nat,
                old(pipe).capacity() as nat,
            ),
            final(self).zeroed() == old(self).zeroed(),
            final(pipe).content() == old(pipe).content() + bytes@.take(n as int),
            final(pipe).closed() == old(pipe).closed(),
            final(pipe).capacity() == old(pipe).capacity(),
            final(pipe).writer() == old(pipe).writer(),
            final(pipe).reader() is None,
            final(cx).waker == old(cx).waker,
            final(cx).woken@ == old(cx).woken@ + wake_of(old(pipe).reader()),
            forall|reader: &Reader| #[trigger]
                reader.wf(old(pipe)) ==> reader.stays(old(pipe), final(pipe)),
    {
        let cap: usize = pipe.cap;
        let ghost h: int = pipe.taken@ as int;
        let ghost t: int = pipe.sent@ as int;
        proof {
            lemma_ring(t, cap as int);
            lemma_advance(t, n as int, cap as int);
        }
        let from: usize = real_index(self.tail, cap);
        copy_bytes(bytes, 0, pipe.buffer.as_mut_slice(), from, n);
        if self.tail + n < 2 * cap {
            self.tail = self.tail + n;
        } else {
            self.tail = 0;
        }
        pipe.tail = self.tail;
        proof {
            pipe.sent = Ghost((t + n) as nat);
            let all = old(pipe).content() + bytes@.take(n as int);
            assert forall|p: int| h <= p < t + n implies 0 <= #[trigger] (p % (cap as int))
                < pipe.buffer@.len() by {
                if p >= t {
                    assert((t + (p - t)) % (cap as int) == from + (p - t));
                }
            }
            assert forall|i: int| 0 <= i < t + n - h implies #[trigger] pipe.content()[i]
                == all[i] by {
                let p = h + i;
                if p >= t {
                    assert((t + (p - t)) % (cap as int) == from + (p - t));
                } else {
                    assert forall|j: int| 0 <= j < n implies p % (cap as int) != #[trigger] ((t + j)
                        % (cap as int)) by {
                        lemma_places(p, t + j, cap as int);
                    }
                    assert(old(pipe).content()[i] == old(pipe).buffer@[p % (cap as int)]);
                    assert(p % (cap as int) < from || p % (cap as int) >= from + n) by {
                        let j = p % (cap as int) - from;
                        if 0 <= j < n {
                            assert((t + j) % (cap as int) == from + j);
                        }
                    }
                }
            }
            assert(pipe.content() =~= all);
        }
        match pipe.reader.take() {
            Some(waker) => {
                cx.woken.push(Wake::Task(waker));
                assert(cx.woken@ =~= old(cx).woken@ + wake_of(old(pipe).reader));
            },
            None => {
                assert(cx.woken@ =~= old(cx).woken@ + wake_of(old(pipe).reader));
            },
        }
    }

    /// Moves bytes from `src` into the room that the pipe is known to have.
    pub fn fill<S: Read>(
        &mut self,
        pipe: &mut Pipe,
        cx: &mut Context,
        src: &mut S,
        lot: usize,
    ) -> (r: Poll<Result<usize, Error>>)
        requires
            old(pipe).wf(),
            old(self).wf(old(pipe)),
        ensures
            final(pipe).wf(),
            old(pipe).attended() ==> final(pipe).attended(),
            final(self).wf(final(pipe)),
            final(pipe).closed() == old(pipe).closed(),
            final(pipe).capacity() == old(pipe).capacity(),
            final(cx).waker == old(cx).waker,
            old(src).reliable() ==> final(src).reliable() && !(r matches Poll::Ready(Err(_))),
            r is Ready && !old(pipe).closed() ==> exists|
                n: nat,
                mid: Filling<S>,
                room: Seq<u8>,
                buf: Seq<u8>,
            | #[trigger]
                (Filling {
                    src: *old(src),
                    put: 0,
                    run: old(self).run(old(pipe)),
                    zeroed: old(self).zeroed(),
                }).ends(
                    old(self).visible(old(pipe)),
                    old(pipe).capacity() as nat,
                    n,
                    mid,
                    room,
                    buf,
                    r,
                    *final(src),
                ),
            final(src).whole() == old(src).whole(),
            reads_whole(old(src).whole(), old(src).given(), old(src).ended()) ==> reads_whole(
                final(src).whole(),
                final(src).given(),
                final(src).ended(),
            ),
            ({
                let visible = old(self).visible(old(pipe));
                let n = final(src).given().len() - old(src).given().len();
                let new = final(src).given().skip(old(src).given().len() as int);
                &&& 0 <= n <= visible
                &&& final(src).given() == old(src).given() + new
                &&& final(pipe).content() == old(pipe).content() + new
                &&& r is Pending <==> !old(pipe).closed() && (visible == 0 || lot == 0)
                &&& r is Pending || old(pipe).closed() ==> n == 0
                &&& old(pipe).closed() ==> r == Poll::Ready(Ok::<usize, Error>(0))
                &&& final(self).known(final(pipe)) == (if old(pipe).closed() {
                    old(self).known(old(pipe)) as int
                } else {
                    visible - n
                })
                &&& r matches Poll::Ready(Ok(count)) ==> count == n
                &&& r matches Poll::Ready(Ok(count)) ==> (count < visible && !old(pipe).closed()
                    ==> final(src).ended())
                &&& final(pipe).writer() == (if old(pipe).closed() {
                    old(pipe).writer()
                } else if visible == 0 {
                    Some(old(cx).waker)
                } else {
                    None
                })
                &&& if n > 0 {
                    &&& final(pipe).reader() is None
                    &&& final(cx).woken@ == old(cx).woken@ + wake_of(old(pipe).reader())
                } else {
                    &&& final(pipe).reader() == old(pipe).reader()
                    &&& final(cx).woken@ == (if !old(pipe).closed() && visible > 0 && lot == 0 {
                        old(cx).woken@.push(Wake::Task(old(cx).waker))
                    } else {
                        old(cx).woken@
                    })
                }
            }),
            forall|reader: &Reader| #[trigger]
                reader.wf(old(pipe)) ==> reader.stays(old(pipe), final(pipe)),
    {
        let ghost visible = self.visible(pipe);
        let ghost start = src.given();
        let ghost before = pipe.content();
        proof {
            assert(start.skip(start.len() as int) =~= Seq::<u8>::empty());
            assert(start + Seq::<u8>::empty() =~= start);
            assert(before + Seq::<u8>::empty() =~= before);
        }
        match self.ready(pipe, cx, lot) {
            Poll::Pending => return Poll::Pending,
            Poll::Ready(false) => return Poll::Ready(Ok(0)),
            Poll::Ready(true) => {},
        }
        let mut count: usize = 0;
        let ghost mut new: Seq<u8> = Seq::empty();
        let ghost cap = pipe.capacity() as nat;
        let ghost from = Filling {
            src: *src,
            put: 0,
            run: self.run(pipe),
            zeroed: self.zeroed(),
        };
        let ghost mut rounds: nat = 0;
        loop
            invariant
                pipe.wf(),
                self.wf(pipe),
                cap == pipe.capacity(),
                from == (Filling {
                    src: *old(src),
                    put: 0,
                    run: old(self).run(old(pipe)),
                    zeroed: old(self).zeroed(),
                }),
                from.steps(
                    visible,
                    cap,
                    rounds,
                    Filling {
                        src: *src,
                        put: count as nat,
                        run: self.run(pipe),
                        zeroed: self.zeroed(),
                    },
                ),
                !pipe.closed(),
                !old(pipe).closed(),
                pipe.capacity() == old(pipe).capacity(),
                cx.waker == old(cx).waker,
                old(src).reliable() ==> src.reliable(),
                src.whole() == old(src).whole(),
                reads_whole(old(src).whole(), old(src).given(), old(src).ended()) ==> reads_whole(
                    src.whole(),
                    src.given(),
                    src.ended(),
                ),
                start == old(src).given(),
                before == old(pipe).content(),
                visible == old(self).visible(old(pipe)),
                0 < visible <= usize::MAX,
                lot != 0,
                count == new.len() <= visible,
                self.known(pipe) == visible - count,
                src.given() == start + new,
                pipe.content() == before + new,
                pipe.writer() is None,
                count == 0 ==> pipe.reader() == old(pipe).reader() && cx.woken@ == old(cx).woken@,
                count > 0 ==> pipe.reader() is None && cx.woken@ == old(cx).woken@ + wake_of(
                    old(pipe).reader(),
                ),
                forall|reader: &Reader| #[trigger]
                    reader.wf(old(pipe)) ==> reader.stays(old(pipe), pipe),
            decreases visible - count,
        {
            let ghost mid = Filling {
                src: *src,
                put: count as nat,
                run: self.run(pipe),
                zeroed: self.zeroed(),
            };
            let n: usize = self.window(pipe);
            let mut chunk: Vec<u8> = vec![0u8; n];
            let ghost room = chunk@;
            let m: usize = match src.read(chunk.as_mut_slice()) {
                Ok(m) => m,
                Err(error) => {
                    let r = Poll::Ready(Err(error));
                    assert(from.ends(visible, cap, rounds, mid, room, chunk@, r, *src));
                    assert((start + new).skip(start.len() as int) =~= new);
                    return r;
                },
            };
            if m == 0 || pipe.closed {
                let r = Poll::Ready(Ok(count));
                proof {
                    assert(from.ends(visible, cap, rounds, mid, room, chunk@, r, *src));
                    assert(start + new + chunk@.take(0) =~= start + new);
                    assert((start + new).skip(start.len() as int) =~= new);
                }
                return r;
            }
            self.commit(pipe, chunk.as_slice(), m, cx);
            proof {
                let next = Filling {
                    src: *src,
                    put: (count + m) as nat,
                    run: self.run(pipe),
                    zeroed: self.zeroed(),
                };
                assert(mid.step(visible, cap, room, m, chunk@, next));
                rounds = rounds + 1;
                let part = chunk@.take(m as int);
                assert(start + new + part =~= start + (new + part));
                assert(before + new + part =~= before + (new + part));
                assert(old(cx).woken@ + wake_of(old(pipe).reader()) + wake_of(None)
                    =~= old(cx).woken@ + wake_of(old(pipe).reader()));
                new = new + part;
            }
            count = count + m;
        }
    }

    /// Closes the pipe and wakes up the other side.
    pub fn drop(self, pipe: &mut Pipe, woken: &mut Vec<Wake>)
        requires
            old(pipe).wf(),
        ensures
            final(pipe).wf(),
            old(pipe).attended() ==> final(pipe).attended(),
            final(pipe).closed(),
            final(pipe).content() == old(pipe).content(),
            final(pipe).capacity() == old(pipe).capacity(),
            final(pipe).writer() == old(pipe).writer(),
            final(pipe).reader() is None,
            final(woken)@ == old(woken)@ + wake_of(old(pipe).reader()),
            forall|reader: &Reader| #[trigger]
                reader.wf(old(pipe)) ==> reader.stays(old(pipe), final(pipe)),
    {
        pipe.closed = true;
        assert(pipe.content() =~= old(pipe).content());
        match pipe.reader.take() {
            Some(waker) => {
                woken.push(Wake::Task(waker));
                assert(woken@ =~= old(woken)@ + wake_of(old(pipe).reader));
            },
            None => {
                assert(woken@ =~= old(woken)@ + wake_of(old(pipe).reader));
            },
        }
    }
}

/// The bytes that came into the pipe in the first `k` moves.
pub open spec fn all_put(news: Seq<Seq<u8>>, k: nat) -> Seq<u8>
    decreases k,
{
    if k == 0 {
        Seq::empty()
    } else {
        all_put(news, (k - 1) as nat) + news[k - 1]
    }
}

/// The bytes that were taken out of the pipe in the first `k` moves.
pub open spec fn all_taken(pipes: Seq<Pipe>, news: Seq<Seq<u8>>, ns: Seq<int>, k: nat) -> Seq<u8>
    decreases k,
{
    if k == 0 {
        Seq::empty()
    } else {
        all_taken(pipes, news, ns, (k - 1) as nat) + (pipes[k - 1].content() + news[k - 1]).take(
            ns[k - 1],
        )
    }
}

/// In one move some bytes came into the pipe, and some were taken out.
pub open spec fn moved(before: Pipe, new: Seq<u8>, n: int, after: Pipe) -> bool {
    &&& 0 <= n <= before.content().len() + new.len()
    &&& after.content() == (before.content() + new).skip(n)
}

/// Bytes come out of a pipe in the order in which they went in, and none is lost or doubled: in
/// any number of moves, what went in is what came out, followed by what is in the pipe.
pub proof fn law_in_order(pipes: Seq<Pipe>, news: Seq<Seq<u8>>, ns: Seq<int>, k: nat)
    requires
        pipes.len() == news.len() + 1,
        ns.len() == news.len(),
        k <= news.len(),
        forall|i: int|
            0 <= i < news.len() ==> moved(pipes[i], #[trigger] news[i], ns[i], pipes[i + 1]),
    ensures
        pipes[0].content() + all_put(news, k) == all_taken(pipes, news, ns, k)
            + pipes[k as int].content(),
    decreases k,
{
    let c = pipes[0].content();
    if k == 0 {
        assert(c + Seq::empty() =~= Seq::empty() + c);
    } else {
        let i = k - 1;
        law_in_order(pipes, news, ns, i as nat);
        assert(moved(pipes[i], news[i], ns[i], pipes[i + 1]));
        let all = pipes[i].content() + news[i];
        assert(all =~= all.take(ns[i]) + all.skip(ns[i]));
        let put = all_put(news, i as nat);
        let taken = all_taken(pipes, news, ns, i as nat);
        assert(c + (put + news[i]) =~= (c + put) + news[i]);
        assert((taken + pipes[i].content()) + news[i] =~= taken + all);
        assert(taken + all =~= (taken + all.take(ns[i])) + all.skip(ns[i]));
    }
}

/// Nobody waits for what is there: a reader waits only at a pipe that is empty, and a writer only at
/// one that is full; and what they can see is no more than there is.
pub proof fn law_sees_what_is_there(reader: &Reader, writer: &Writer, pipe: &Pipe)
    requires
        pipe.wf(),
        reader.wf(pipe),
        writer.wf(pipe),
    ensures
        reader.visible(pipe) == 0 <==> pipe.content().len() == 0,
        reader.visible(pipe) <= pipe.content().len(),
        writer.visible(pipe) == 0 <==> pipe.content().len() == pipe.capacity(),
        writer.visible(pipe) + pipe.content().len() <= pipe.capacity(),
{
    reader.lemma_known(pipe);
    writer.lemma_known(pipe);
}

/// Whoever is registered is woken up, and nobody else.
pub proof fn law_woken(waker: Waker)
    ensures
        wake_of(Some(waker)) == seq![Wake::Task(waker)],
        wake_of(None) == Seq::<Wake>::empty(),
{
}

/// What goes out of a pipe in one go is what was in front of it: what is offered next is what follows
/// what went before, and something is offered as long as there is something to be seen.
pub proof fn law_offered_in_order<D: Write>(
    draining: Draining<D>,
    all: Seq<u8>,
    visible: nat,
    cap: nat,
    m: usize,
    next: Draining<D>,
)
    requires
        draining.taken <= visible <= all.len(),
        0 < draining.run <= cap,
        draining.step(all, visible, cap, m, next),
    ensures
        draining.offered(all, visible).len() > 0 <==> draining.taken < visible,
        draining.offered(all, visible) == all.subrange(
            draining.taken as int,
            (draining.taken + draining.offered(all, visible).len()) as int,
        ),
        draining.offered(all, visible).len() <= 131072,
        draining.offered(all, visible).len() <= draining.run,
        next.taken == draining.taken + m,
        next.taken <= visible,
        0 < next.run <= cap,
        m < draining.run ==> next.run == draining.run - m,
        m == draining.run ==> next.run == cap,
{
    let offered = draining.offered(all, visible);
    assert(offered =~= all.subrange(
        draining.taken as int,
        (draining.taken + offered.len()) as int,
    ));
}

/// What comes into a pipe in one go goes where there is room: something is asked for as long as there
/// is known to be room, never more than that, never past the end of the ring, and never more than so
/// much at once.
pub proof fn law_asked_for<S: Read>(
    filling: Filling<S>,
    visible: nat,
    cap: nat,
    room: Seq<u8>,
    m: usize,
    buf: Seq<u8>,
    next: Filling<S>,
)
    requires
        filling.put < visible,
        0 < filling.run <= cap,
        filling.zeroed <= cap,
        filling.step(visible, cap, room, m, buf, next),
    ensures
        0 < room.len() <= visible - filling.put,
        room.len() <= filling.run,
        room.len() <= 131072,
        next.put == filling.put + m,
        next.put <= visible,
        0 < next.run <= cap,
        m < filling.run ==> next.run == filling.run - m,
        m == filling.run ==> next.run == cap,
        filling.zeroed <= next.zeroed <= cap,
        cap - filling.run + room.len() <= next.zeroed,
{
}

/// What is told of emptying or filling a pipe is how many bytes went through, and nothing is told
/// while they still go.
pub proof fn law_told_how_many<D: Write, S: Read>(
    draining: Draining<D>,
    all: Seq<u8>,
    visible: nat,
    cap: nat,
    n: nat,
    mid: Draining<D>,
    r: Poll<Result<usize, Error>>,
    dest: D,
    filling: Filling<S>,
    space: nat,
    k: nat,
    middle: Filling<S>,
    room: Seq<u8>,
    buf: Seq<u8>,
    got: Poll<Result<usize, Error>>,
    src: S,
)
    requires
        draining.ends(all, visible, cap, n, mid, r, dest),
        filling.ends(space, cap, k, middle, room, buf, got, src),
    ensures
        r is Ready && got is Ready,
        r matches Poll::Ready(Ok(count)) ==> count >= draining.taken + n && (n == 0 ==> count
            == draining.taken),
        got matches Poll::Ready(Ok(count)) ==> count >= filling.put + k && (k == 0 ==> count
            == filling.put),
{
    lemma_drained_on(draining, all, visible, cap, n, mid);
    lemma_filled_on(filling, space, cap, k, middle);
}

proof fn lemma_drained_on<D: Write>(
    draining: Draining<D>,
    all: Seq<u8>,
    visible: nat,
    cap: nat,
    n: nat,
    mid: Draining<D>,
)
    requires
        draining.steps(all, visible, cap, n, mid),
    ensures
        mid.taken >= draining.taken + n,
        n == 0 ==> mid == draining,
    decreases n,
{
    if n > 0 {
        let (at, m) = choose|at: Draining<D>, m: usize|
            {
                &&& draining.steps(all, visible, cap, (n - 1) as nat, at)
                &&& #[trigger] at.step(all, visible, cap, m, mid)
            };
        lemma_drained_on(draining, all, visible, cap, (n - 1) as nat, at);
    }
}

proof fn lemma_filled_on<S: Read>(
    filling: Filling<S>,
    visible: nat,
    cap: nat,
    n: nat,
    mid: Filling<S>,
)
    requires
        filling.steps(visible, cap, n, mid),
    ensures
        mid.put >= filling.put + n,
        n == 0 ==> mid == filling,
    decreases n,
{
    if n > 0 {
        let (at, room, m, buf) = choose|at: Filling<S>, room: Seq<u8>, m: usize, buf: Seq<u8>|
            {
                &&& filling.steps(visible, cap, (n - 1) as nat, at)
                &&& #[trigger] at.step(visible, cap, room, m, buf, mid)
            };
        lemma_filled_on(filling, visible, cap, (n - 1) as nat, at);
    }
}

} // verus!
