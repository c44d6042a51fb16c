//! Jobs that are done side by side.

use vstd::prelude::*;

verus! {

/// The items from the last to the first.
fn reversed<A>(items: Vec<A>) -> (r: Vec<A>)
    ensures
        r@ == items@.reverse(),
{
    let mut rest = items;
    let mut turned: Vec<A> = Vec::new();
    let ghost all = items@;
    while rest.len() > 0
        invariant
            rest@.len() <= all.len(),
            rest@ == all.take(rest@.len() as int),
            turned@ == all.reverse().take(all.len() - rest@.len()),
        decreases rest@.len(),
    {
        let ghost n = rest@.len();
        let item = rest.pop().unwrap();
        turned.push(item);
        assert(rest@ =~= all.take(n - 1));
        assert(turned@ =~= all.reverse().take(all.len() - n + 1));
    }
    assert(turned@ =~= all.reverse());
    turned
}

/// Jobs that are done side by side.
#[must_use]
pub struct Parallel<F> {
    pub closures: Vec<F>,
}

impl<F> Parallel<F> {
    pub fn new() -> (r: Parallel<F>)
        ensures
            r.closures@ == Seq::<F>::empty(),
    {
        Parallel { closures: Vec::new() }
    }

    /// One more job.
    pub fn add(self, f: F) -> (r: Parallel<F>)
        ensures
            r.closures@ == self.closures@.push(f),
    {
        let mut this = self;
        this.closures.push(f);
        this
    }

    /// Each item becomes a job, which `f` makes of it.
    pub fn each<A, M: Fn(A) -> F>(self, items: Vec<A>, f: M) -> (r: Parallel<F>)
        requires
            forall|i: int| 0 <= i < items@.len() ==> call_requires(f, (#[trigger] items@[i],)),
        ensures
            r.closures@.len() == self.closures@.len() + items@.len(),
            r.closures@.take(self.closures@.len() as int) == self.closures@,
            forall|i: int|
                0 <= i < items@.len() ==> call_ensures(
                    f,
                    (#[trigger] items@[i],),
                    r.closures@[self.closures@.len() + i],
                ),
    {
        let mut this = self;
        let ghost all = items@;
        let n: usize = items.len();
        let mut i: usize = n;
        let mut turned = reversed(items);
        let ghost before = this.closures@;
        while i > 0
            invariant
                i <= n,
                n == all.len(),
                turned@.len() == i,
                forall|j: int| 0 <= j < i ==> turned@[j] == all[n - 1 - j],
                forall|j: int| 0 <= j < all.len() ==> call_requires(f, (#[trigger] all[j],)),
                this.closures@.len() == before.len() + (n - i),
                this.closures@.take(before.len() as int) == before,
                forall|j: int|
                    0 <= j < n - i ==> call_ensures(
                        f,
                        (#[trigger] all[j],),
                        this.closures@[before.len() + j],
                    ),
            decreases i,
        {
            let item = turned.pop().unwrap();
            assert(item == all[n - i]);
            let job = f(item);
            this.closures.push(job);
            assert(this.closures@.take(before.len() as int) =~= before);
            i = i - 1;
        }
        this
    }

    /// The jobs that are handed out, and the last one, which is done by whoever waits for them.
    pub fn split(self) -> (r: Option<(Vec<F>, F)>)
        ensures
            match r {
                None => self.closures@.len() == 0,
                Some((others, last)) => {
                    &&& self.closures@.len() > 0
                    &&& others@ == self.closures@.drop_last()
                    &&& last == self.closures@.last()
                },
            },
    {
        let mut others = self.closures;
        match others.pop() {
            None => None,
            Some(last) => {
                assert(others@ =~= self.closures@.drop_last());
                Some((others, last))
            },
        }
    }
}

/// The results, in the order of the jobs.
pub fn gather<T>(results: Vec<T>, last: T) -> (r: Vec<T>)
    ensures
        r@ == results@.push(last),
{
    let mut results = results;
    results.push(last);
    results
}

impl<F> Parallel<F> {
    /// Does all jobs, and then `f`, in this thread.
    pub fn finish<T, G: FnOnce() -> R, R>(self, f: G) -> (r: (Vec<T>, R)) where F: FnOnce() -> T
        requires
            call_requires(f, ()),
            forall|i: int|
                0 <= i < self.closures@.len() ==> call_requires(#[trigger] self.closures@[i], ()),
        ensures
            r.0@.len() == self.closures@.len(),
            forall|i: int|
                0 <= i < self.closures@.len() ==> call_ensures(
                    self.closures@[i],
                    (),
                    #[trigger] r.0@[i],
                ),
            call_ensures(f, (), r.1),
    {
        let ghost jobs = self.closures@;
        let n: usize = self.closures.len();
        let mut turned = reversed(self.closures);
        let mut results: Vec<T> = Vec::new();
        let mut i: usize = 0;
        while i < n
            invariant
                i <= n,
                n == jobs.len(),
                turned@.len() == n - i,
                forall|j: int| 0 <= j < n - i ==> turned@[j] == jobs[n - 1 - j],
                results@.len() == i,
                forall|j: int| 0 <= j < n ==> call_requires(#[trigger] jobs[j], ()),
                forall|j: int| 0 <= j < i ==> call_ensures(jobs[j], (), #[trigger] results@[j]),
            decreases n - i,
        {
            let job = turned.pop().unwrap();
            assert(job == jobs[i as int]);
            let out = job();
            results.push(out);
            i = i + 1;
        }
        let last = f();
        (results, last)
    }

    /// Does all jobs in this thread. The results come in the order of the jobs.
    pub fn run<T>(self) -> (r: Vec<T>) where F: FnOnce() -> T
        requires
            forall|i: int|
                0 <= i < self.closures@.len() ==> call_requires(#[trigger] self.closures@[i], ()),
        ensures
            r@.len() == self.closures@.len(),
            forall|i: int|
                0 <= i < self.closures@.len() ==> call_ensures(
                    self.closures@[i],
                    (),
                    #[trigger] r@[i],
                ),
    {
        let ghost jobs = self.closures@;
        match self.split() {
            None => Vec::new(),
            Some((others, last)) => {
                assert forall|i: int| 0 <= i < others@.len() implies call_requires(
                    #[trigger] others@[i],
                    (),
                ) by {
                    assert(others@[i] == jobs[i]);
                }
                assert(last == jobs[jobs.len() - 1]);
                let (results, out) = Parallel { closures: others }.finish(last);
                gather(results, out)
            },
        }
    }
}

} // verus!
