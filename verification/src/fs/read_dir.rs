//! Reading a directory entry by entry.

use vstd::prelude::*;
use crate::future::future::{continues, Future};
use crate::io::error::Error;
use crate::task::{Context, Poll};

verus! {

/// Where reading a directory is at: it waits to be asked, or for the next entry. `D` is the
/// directory, which is lent to the future `F` that reads from it.
pub enum State<D, F> {
    Idle(Option<D>),
    Busy(F),
}

/// The entries of a directory.
pub struct ReadDir<D, F>(pub State<D, F>);

impl<D, F> ReadDir<D, F> {
    pub fn new(inner: D) -> (r: Self)
        ensures
            r.0 == State::<D, F>::Idle(Some(inner)),
    {
        ReadDir(State::Idle(Some(inner)))
    }
}

/// What a future that reads an entry gives: the directory back, and the entry if there is one.
pub open spec fn entry_read<D, E>(
    out: Poll<(D, Option<Result<E, Error>>)>,
    r: Poll<Option<Result<E, Error>>>,
) -> bool {
    match out {
        Poll::Ready((_, entry)) => r == Poll::Ready(entry),
        Poll::Pending => r is Pending,
    }
}

impl<D, E, F: Future<Output = (D, Option<Result<E, Error>>)>> ReadDir<D, F> {
    pub open spec fn live(&self) -> bool {
        match self.0 {
            State::Idle(inner) => inner is Some,
            State::Busy(task) => task.live(),
        }
    }

    /// The future `task`, which read from the directory, gave `out`.
    pub open spec fn stepped(
        task: F,
        cx: Context,
        out: Poll<(D, Option<Result<E, Error>>)>,
        task_after: F,
        r: Poll<Option<Result<E, Error>>>,
        next: Self,
        after: Context,
    ) -> bool {
        &&& task.polled(cx, out, task_after, after)
        &&& entry_read(out, r)
        &&& next.0 == (match out {
            Poll::Ready((inner, _)) => State::Idle(Some(inner)),
            Poll::Pending => State::Busy(task_after),
        })
    }

    /// Asks for the next entry. If nobody reads yet, `start` makes the future that does.
    pub fn poll_next<S: FnOnce(D) -> F>(&mut self, cx: &mut Context, start: S) -> (r: Poll<
        Option<Result<E, Error>>,
    >)
        requires
            old(self).live(),
            old(self).0 matches State::Idle(Some(inner)) ==> {
                &&& call_requires(start, (inner,))
                &&& forall|task: F| #[trigger] call_ensures(start, (inner,), task) ==> task.live()
            },
        ensures
            final(self).live(),
            continues(*old(cx), *final(cx)),
            exists|
                task: F,
                out: Poll<(D, Option<Result<E, Error>>)>,
                task_after: F,
            |
                {
                    &&& #[trigger] Self::stepped(
                        task,
                        *old(cx),
                        out,
                        task_after,
                        r,
                        *final(self),
                        *final(cx),
                    )
                    &&& match old(self).0 {
                        State::Idle(inner) => call_ensures(start, (inner->0,), task),
                        State::Busy(busy) => task == busy,
                    }
                },
            // It reads on exactly if there is nothing to tell yet.
            (r is Pending) == (final(self).0 is Busy),
            r is Ready ==> final(self).0 matches State::Idle(Some(_)),
    {
        let mut state = State::Idle(None);
        std::mem::swap(&mut state, &mut self.0);
        let mut task = match state {
            State::Idle(mut inner) => start(inner.take().unwrap()),
            State::Busy(task) => task,
        };
        let ghost asked = task;
        match task.poll(cx) {
            Poll::Ready((inner, entry)) => {
                let ghost out = Poll::Ready((inner, entry));
                let ghost task_after = task;
                self.0 = State::Idle(Some(inner));
                let r = Poll::Ready(entry);
                assert(Self::stepped(asked, *old(cx), out, task_after, r, *self, *cx));
                r
            },
            Poll::Pending => {
                let ghost task_after = task;
                self.0 = State::Busy(task);
                assert(Self::stepped(
                    asked,
                    *old(cx),
                    Poll::Pending,
                    task_after,
                    Poll::Pending,
                    *self,
                    *cx,
                ));
                Poll::Pending
            },
        }
    }
}

/// An entry of a directory. Its names are bytes, which need not be text.
#[derive(Debug)]
pub struct DirEntry {
    pub path: Vec<u8>,
    pub file_name: Vec<u8>,
    pub ino: u64,
}

impl DirEntry {
    pub fn path(&self) -> (r: Vec<u8>)
        ensures
            r@ == self.path@,
    {
        let r = self.path.clone();
        assert(r@ =~= self.path@);
        r
    }

    pub fn file_name(&self) -> (r: Vec<u8>)
        ensures
            r@ == self.file_name@,
    {
        let r = self.file_name.clone();
        assert(r@ =~= self.file_name@);
        r
    }
}

/// What the entries of a Unix directory have besides.
pub trait DirEntryExt {
    spec fn number(&self) -> u64;

    /// The number of the inode.
    fn ino(&self) -> (r: u64)
        ensures
            r == self.number(),
    ;
}

impl DirEntryExt for DirEntry {
    open spec fn number(&self) -> u64 {
        self.ino
    }

    fn ino(&self) -> (r: u64) {
        self.ino
    }
}

/// What was read is what is told: the entry, an error or the end, as the one who read from the
/// directory found it, who also gives the directory back. As long as they have not, they are asked
/// again.
pub proof fn law_entries_told<D, E, F: Future<Output = (D, Option<Result<E, Error>>)>>(
    task: F,
    cx: Context,
    out: Poll<(D, Option<Result<E, Error>>)>,
    task_after: F,
    r: Poll<Option<Result<E, Error>>>,
    next: ReadDir<D, F>,
    after: Context,
)
    requires
        ReadDir::<D, F>::stepped(task, cx, out, task_after, r, next, after),
    ensures
        task.polled(cx, out, task_after, after),
        out matches Poll::Ready((inner, entry)) ==> r == Poll::Ready(entry) && next.0
            == State::<D, F>::Idle(Some(inner)),
        out is Pending ==> r is Pending && next.0 == State::<D, F>::Busy(task_after),
{
}

} // verus!
