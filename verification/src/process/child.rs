//! A process that was started.

use vstd::prelude::*;
use crate::future::future::{try_zip, Future, TryZip};
use crate::future::swap::read::{
    cause, law_ends_with_the_reader, law_reads_on, outcome, reads_on, tells_end, tells_error,
    tells_read, ReadToEndFuture,
};
use crate::future::swap::traits::AsyncRead;
use crate::io::error::Error;
use crate::platform::event::listener::{
    drops, keeps, lemma_listens, lemma_restates, listens, removes, restates, Event, EventListener,
    State,
};
use crate::process::command::Command;
use crate::task::{Context, Poll, Wake};

verus! {

/// How a process has ended.
#[derive(Clone, Copy, Debug, PartialEq, Eq, Structural)]
pub struct ExitStatus {
    /// What the operating system says of it.
    pub raw: i32,
}

/// What the operating system says when it is asked whether a process has ended.
pub type Answer = Result<Option<ExitStatus>, Error>;

/// The process has not ended.
pub open spec fn still_runs(answer: Answer) -> bool {
    answer matches Ok(None)
}

/// A process that the operating system has just started: the process `P`, and what became of
/// making its pipes such that they do not block.
pub struct Spawned<P, I, O, E> {
    pub process: P,
    pub stdin: Option<Result<I, Error>>,
    pub stdout: Option<Result<O, Error>>,
    pub stderr: Option<Result<E, Error>>,
    /// Whether somebody will tell when it ends.
    pub watched: Result<(), Error>,
}

/// Holds a process that may have to be seen to its end.
pub struct ChildGuard<P> {
    pub inner: Option<P>,
    pub reap_on_drop: bool,
}

impl<P> ChildGuard<P> {
    pub fn get_mut(&mut self) -> (r: &mut P)
        requires
            old(self).inner is Some,
        ensures
            *r == old(self).inner->0,
            final(self).inner == Some(*final(r)),
            final(self).reap_on_drop == old(self).reap_on_drop,
    {
        match &mut self.inner {
            Some(process) => process,
            None => vstd::pervasive::unreached(),
        }
    }

    /// Gives up the process, of which `answer` is known. If it has not ended it is put among the
    /// zombies, unless it need not be seen to its end.
    pub fn drop(self, answer: Answer, zombies: &mut Vec<P>)
        requires
            self.inner is Some,
        ensures
            final(zombies)@ == (if self.reap_on_drop && still_runs(answer) {
                old(zombies)@.push(self.inner->0)
            } else {
                old(zombies)@
            }),
            // Only one that runs on and is to be seen to its end becomes a zombie.
            self.reap_on_drop && (answer matches Ok(None)) ==> final(zombies)@.len()
                == old(zombies)@.len() + 1 && final(zombies)@.last() == self.inner->0,
            !self.reap_on_drop || answer is Err || (answer matches Ok(Some(_))) ==> final(zombies)@
                == old(zombies)@,
    {
        if self.reap_on_drop {
            if let Ok(None) = answer {
                if let Some(process) = self.inner {
                    zombies.push(process);
                }
            }
        }
    }
}

/// Deals with the zombie at `i`, of which `answer` is known: it stays if it has not ended, and
/// else the last one takes its place. Says where to go on.
pub fn reap<P>(zombies: &mut Vec<P>, i: usize, answer: &Answer) -> (r: usize)
    requires
        i < old(zombies)@.len(),
    ensures
        if still_runs(*answer) {
            &&& r == i + 1
            &&& final(zombies)@ == old(zombies)@
        } else {
            let last = old(zombies)@.len() - 1;
            &&& r == i
            &&& final(zombies)@ == old(zombies)@.update(i as int, old(zombies)@[last]).take(last)
        },
        // Only one that has ended leaves.
        *answer matches Ok(None) ==> final(zombies)@ == old(zombies)@,
        (*answer matches Ok(Some(_))) || *answer is Err ==> final(zombies)@.len()
            == old(zombies)@.len() - 1,
        final(zombies)@.len() - r == old(zombies)@.len() - i - 1,
{
    assert(zombies.len() == zombies@.len());
    match answer {
        Ok(None) => i + 1,
        _ => {
            zombies.swap_remove(i);
            proof {
                let last = old(zombies)@.len() - 1;
                assert(zombies@ =~= old(zombies)@.update(i as int, old(zombies)@[last]).take(
                    last,
                ));
            }
            i
        },
    }
}

/// Each zombie is asked once: whatever the answer, one less is left to be asked, those who were
/// asked and stay keep their places, and of the others none is lost.
pub proof fn law_each_asked_once<P>(before: Seq<P>, i: int, answer: Answer, after: Seq<P>, next: int)
    requires
        0 <= i < before.len(),
        if still_runs(answer) {
            next == i + 1 && after == before
        } else {
            let last = before.len() - 1;
            next == i && after == before.update(i, before[last]).take(last)
        },
    ensures
        after.len() - next == before.len() - i - 1,
        after.take(i) == before.take(i),
        after.skip(next).to_multiset() == before.skip(i + 1).to_multiset(),
{
    broadcast use vstd::seq_lib::group_to_multiset_ensures;

    assert(after.take(i) =~= before.take(i));
    if !still_runs(answer) {
        let last = before.len() - 1;
        let rest = before.skip(i + 1);
        if i == last {
            assert(after.skip(next) =~= rest);
        } else {
            let moved = seq![before[last]] + rest.drop_last();
            assert(after.skip(next) =~= moved);
            assert(rest =~= rest.drop_last() + seq![before[last]]);
            vstd::seq_lib::lemma_multiset_commutative(seq![before[last]], rest.drop_last());
            vstd::seq_lib::lemma_multiset_commutative(rest.drop_last(), seq![before[last]]);
        }
    }
}

/// A process that was started, with those of its streams that lead here.
pub struct Child<P, I, O, E> {
    pub stdin: Option<I>,
    pub stdout: Option<O>,
    pub stderr: Option<E>,
    pub child: ChildGuard<P>,
    pub kill_on_drop: bool,
}

/// A pipe that is there must have been made such that it does not block.
pub open spec fn made<T>(pipe: Option<Result<T, Error>>) -> Result<Option<T>, Error> {
    match pipe {
        None => Ok(None),
        Some(Ok(t)) => Ok(Some(t)),
        Some(Err(e)) => Err(e),
    }
}

fn transpose<T>(pipe: Option<Result<T, Error>>) -> (r: Result<Option<T>, Error>)
    ensures
        r == made(pipe),
{
    match pipe {
        None => Ok(None),
        Some(Ok(t)) => Ok(Some(t)),
        Some(Err(e)) => Err(e),
    }
}

impl<P, I, O, E> Child<P, I, O, E> {
    /// The error that keeps a process from being handed out, if there is one: the first of
    /// starting it, of its pipes and of watching it.
    pub open spec fn trouble(spawned: Result<Spawned<P, I, O, E>, Error>) -> Option<Error> {
        match spawned {
            Err(e) => Some(e),
            Ok(s) => if made(s.stdin) is Err {
                Some(made(s.stdin)->Err_0)
            } else if made(s.stdout) is Err {
                Some(made(s.stdout)->Err_0)
            } else if made(s.stderr) is Err {
                Some(made(s.stderr)->Err_0)
            } else if s.watched is Err {
                Some(s.watched->Err_0)
            } else {
                None
            },
        }
    }

    /// Hands out a process that was started as `cmd` says.
    pub fn new(cmd: &Command, spawned: Result<Spawned<P, I, O, E>, Error>) -> (r: Result<
        Child<P, I, O, E>,
        Error,
    >)
        ensures
            match Self::trouble(spawned) {
                Some(e) => r == Err::<Child<P, I, O, E>, Error>(e),
                None => {
                    let s = spawned->Ok_0;
                    &&& r matches Ok(child)
                    &&& child.stdin == made(s.stdin)->Ok_0
                    &&& child.stdout == made(s.stdout)->Ok_0
                    &&& child.stderr == made(s.stderr)->Ok_0
                    &&& child.child.inner == Some(s.process)
                    &&& child.child.reap_on_drop == cmd.reap_on_drop
                    &&& child.kill_on_drop == cmd.kill_on_drop
                },
            },
            // It is handed out exactly if nothing went wrong, with the pipes that were made.
            r is Ok <==> (spawned matches Ok(s) && s.watched is Ok && !(s.stdin matches Some(Err(_)))
                && !(s.stdout matches Some(Err(_))) && !(s.stderr matches Some(Err(_)))),
            r matches Ok(child) ==> {
                let s = spawned->Ok_0;
                &&& child.stdin is Some == s.stdin is Some
                &&& child.stdout is Some == s.stdout is Some
                &&& child.stderr is Some == s.stderr is Some
                &&& child.stdin matches Some(pipe) ==> s.stdin == Some(Ok::<I, Error>(pipe))
                &&& child.stdout matches Some(pipe) ==> s.stdout == Some(Ok::<O, Error>(pipe))
                &&& child.stderr matches Some(pipe) ==> s.stderr == Some(Ok::<E, Error>(pipe))
            },
            spawned matches Err(e) ==> r == Err::<Child<P, I, O, E>, Error>(e),
    {
        let s = match spawned {
            Ok(s) => s,
            Err(e) => return Err(e),
        };
        let stdin = match transpose(s.stdin) {
            Ok(stdin) => stdin,
            Err(e) => return Err(e),
        };
        let stdout = match transpose(s.stdout) {
            Ok(stdout) => stdout,
            Err(e) => return Err(e),
        };
        let stderr = match transpose(s.stderr) {
            Ok(stderr) => stderr,
            Err(e) => return Err(e),
        };
        if let Err(e) = s.watched {
            return Err(e);
        }
        Ok(
            Child {
                stdin,
                stdout,
                stderr,
                child: ChildGuard { inner: Some(s.process), reap_on_drop: cmd.reap_on_drop },
                kill_on_drop: cmd.kill_on_drop,
            },
        )
    }

    /// Begins to wait for the process to end. It is told that there is no more input.
    pub fn status(&mut self) -> (r: StatusFuture)
        ensures
            r.stage == Stage::Asking(None),
            final(self).stdin is None,
            final(self).stdout == old(self).stdout,
            final(self).stderr == old(self).stderr,
            final(self).child == old(self).child,
            final(self).kill_on_drop == old(self).kill_on_drop,
    {
        self.stdin = None;
        StatusFuture { stage: Stage::Asking(None) }
    }

    /// Whether the process is to be killed now that its handle is given up.
    pub fn killed_on_drop(&self) -> (r: bool)
        ensures
            r == self.kill_on_drop,
    {
        self.kill_on_drop
    }
}

/// What waiting for the end of a process is at.
pub enum Stage {
    /// Whether the process has ended is asked, with a listener in place or not.
    Asking(Option<EventListener>),
    /// The process had not ended when the listener was in place already.
    Listening(EventListener),
    Done,
}

/// What is to be done next.
pub enum StatusStep {
    /// Ask whether the process has ended.
    Ask,
    /// Nothing yet; the task will be woken up.
    Pending,
    Done(Result<ExitStatus, Error>),
}

/// Waits for a process to end. The event is notified whenever some process has.
pub struct StatusFuture {
    pub stage: Stage,
}

impl StatusFuture {
    /// The listener, if there is one, listens to the event.
    pub open spec fn wf(&self, event: &Event) -> bool {
        match self.stage {
            Stage::Asking(Some(listener)) | Stage::Listening(listener) => {
                &&& listener.active(event)
                &&& !(listener.state(event) is Waiting)
            },
            _ => true,
        }
    }

    /// The listener was asked.
    pub open spec fn listened(
        listener: EventListener,
        event: &Event,
        cx: &Context,
        r: StatusStep,
        stage: Stage,
        event_after: &Event,
    ) -> bool {
        if listener.state(event) is Notified {
            &&& r is Ask
            &&& stage == Stage::Asking(None)
            &&& removes(event, event_after, listener.place(event))
        } else {
            &&& r is Pending
            &&& stage matches Stage::Listening(after)
            &&& after.entry() == listener.entry()
            &&& after.event() == listener.event()
            &&& restates(event, event_after, listener.place(event), State::Polling(cx.waker))
        }
    }

    fn listen(&mut self, listener: EventListener, event: &mut Event, cx: &Context) -> (r: StatusStep)
        requires
            old(event).wf(),
            listener.active(old(event)),
            !(listener.state(old(event)) is Waiting),
        ensures
            final(event).wf(),
            final(self).wf(final(event)),
            Self::listened(listener, old(event), cx, r, final(self).stage, final(event)),
            // Whoever is told to wait listens already, and is the one who is woken up.
            r is Pending ==> (final(self).stage matches Stage::Listening(listener)
                && listener.active(final(event)) && listener.state(final(event)) == State::Polling(
                cx.waker,
            )),
            (r is Done) == (final(self).stage is Done),
    {
        let ghost asked = listener;
        let mut listener = listener;
        match listener.poll(event, cx) {
            Poll::Ready(_) => {
                self.stage = Stage::Asking(None);
                StatusStep::Ask
            },
            Poll::Pending => {
                proof {
                    lemma_restates(
                        old(event),
                        event,
                        asked.place(old(event)),
                        State::Polling(cx.waker),
                        &asked,
                    );
                }
                self.stage = Stage::Listening(listener);
                StatusStep::Pending
            },
        }
    }

    /// Is polled: asks the process, or the listener if the process was asked before.
    pub fn poll(&mut self, event: &mut Event, cx: &Context) -> (r: StatusStep)
        requires
            old(event).wf(),
            old(self).wf(old(event)),
            !(old(self).stage is Done),
        ensures
            final(event).wf(),
            final(self).wf(final(event)),
            match old(self).stage {
                Stage::Listening(listener) => Self::listened(
                    listener,
                    old(event),
                    cx,
                    r,
                    final(self).stage,
                    final(event),
                ),
                _ => r is Ask && *final(self) == *old(self) && *final(event) == *old(event),
            },
            // Whoever is told to wait listens already, and is the one who is woken up.
            r is Pending ==> (final(self).stage matches Stage::Listening(listener)
                && listener.active(final(event)) && listener.state(final(event)) == State::Polling(
                cx.waker,
            )),
            (r is Done) == (final(self).stage is Done),
    {
        let mut stage = Stage::Done;
        std::mem::swap(&mut stage, &mut self.stage);
        match stage {
            Stage::Listening(listener) => self.listen(listener, event, cx),
            _ => {
                self.stage = stage;
                StatusStep::Ask
            },
        }
    }

    /// What comes of the answer of the process.
    pub open spec fn hears(
        &self,
        answer: Answer,
        event: &Event,
        cx: &Context,
        r: StatusStep,
        stage: Stage,
        event_after: &Event,
        woken_after: Seq<Wake>,
    ) -> bool {
        match answer {
            Ok(None) => {
                &&& woken_after == cx.woken@
                &&& match self.stage {
                    // The process may have ended just before the listener was in place, so
                    // it is asked once more.
                    Stage::Asking(None) => {
                        &&& r is Ask
                        &&& stage matches Stage::Asking(Some(listener))
                        &&& listens(event, event_after, &listener)
                    },
                    Stage::Asking(Some(listener)) => Self::listened(
                        listener,
                        event,
                        cx,
                        r,
                        stage,
                        event_after,
                    ),
                    _ => false,
                }
            },
            _ => {
                &&& r == StatusStep::Done(
                    match answer {
                        Ok(status) => Ok(status->0),
                        Err(e) => Err(e),
                    },
                )
                &&& stage is Done
                &&& match self.stage {
                    Stage::Asking(Some(listener)) => drops(
                        &listener,
                        event,
                        event_after,
                        cx.woken@,
                        woken_after,
                    ),
                    _ => {
                        &&& keeps(event, event_after)
                        &&& woken_after == cx.woken@
                    },
                }
            },
        }
    }

    /// Takes the answer of the process.
    pub fn answered(&mut self, answer: Answer, event: &mut Event, cx: &mut Context) -> (r:
        StatusStep)
        requires
            old(event).wf(),
            old(self).wf(old(event)),
            old(self).stage is Asking,
        ensures
            final(event).wf(),
            final(self).wf(final(event)),
            final(cx).waker == old(cx).waker,
            old(self).hears(
                answer,
                old(event),
                old(cx),
                r,
                final(self).stage,
                final(event),
                final(cx).woken@,
            ),
            // Whoever is told to wait listens already, and is the one who is woken up.
            r is Pending ==> (final(self).stage matches Stage::Listening(listener)
                && listener.active(final(event)) && listener.state(final(event)) == State::Polling(
                old(cx).waker,
            )),
            (r is Done) == (final(self).stage is Done),
            // It waits only if the process ran on after it had begun to listen.
            r is Pending ==> (old(self).stage matches Stage::Asking(Some(_)))
                && (answer matches Ok(None)),
            answer matches Ok(Some(status)) ==> r == StatusStep::Done(
                Ok::<ExitStatus, Error>(status),
            ),
            answer matches Err(e) ==> r == StatusStep::Done(Err::<ExitStatus, Error>(e)),
            answer matches Ok(None) ==> !(r is Done),
    {
        let mut stage = Stage::Done;
        std::mem::swap(&mut stage, &mut self.stage);
        let res = match answer {
            Ok(None) => {
                return match stage {
                    Stage::Asking(Some(listener)) => self.listen(listener, event, cx),
                    _ => {
                        let listener = event.listen();
                        proof {
                            lemma_listens(old(event), event, &listener);
                        }
                        self.stage = Stage::Asking(Some(listener));
                        StatusStep::Ask
                    },
                };
            },
            Ok(Some(status)) => Ok(status),
            Err(e) => Err(e),
        };
        if let Stage::Asking(Some(listener)) = stage {
            listener.drop(event, &mut cx.woken);
        }
        StatusStep::Done(res)
    }
}

/// Reads all that comes out of a pipe, if there is one.
pub struct ReadPipe<R> {
    pub pipe: Option<R>,
    pub buf: Vec<u8>,
    pub done: bool,
}

impl<R: AsyncRead> ReadPipe<R> {
    pub fn new(pipe: Option<R>) -> (r: Self)
        ensures
            r.pipe == pipe,
            r.buf@ == Seq::<u8>::empty(),
            !r.done,
    {
        ReadPipe { pipe, buf: Vec::new(), done: false }
    }

    /// Reading appended `got` and gave `raw`, and that is what comes of it.
    pub open spec fn stepped(
        self,
        cx: Context,
        got: Seq<u8>,
        raw: Poll<Result<usize, Error>>,
        r: Poll<Result<Vec<u8>, Error>>,
        next: Self,
        after: Context,
    ) -> bool {
        let all = self.buf@ + got;
        &&& match self.pipe {
            Some(pipe) => {
                &&& next.pipe is Some
                &&& reads_on(pipe, cx, got, cause(raw), next.pipe->0, after)
                &&& raw == outcome(cause(raw), all.len() as usize)
            },
            None => {
                &&& next.pipe is None
                &&& got == Seq::<u8>::empty()
                &&& raw == Poll::Ready(Ok::<usize, Error>(0))
                &&& after == cx
            },
        }
        &&& next.done == (r is Ready)
        &&& match raw {
            Poll::Pending => r is Pending && next.buf@ == all,
            Poll::Ready(Ok(_)) => r matches Poll::Ready(Ok(v)) && v@ == all,
            Poll::Ready(Err(e)) => r == Poll::Ready(Err::<Vec<u8>, Error>(e)),
        }
    }
}

impl<R: AsyncRead> Future for ReadPipe<R> {
    type Output = Result<Vec<u8>, Error>;

    open spec fn live(&self) -> bool {
        &&& !self.done
        &&& self.pipe matches Some(pipe) ==> pipe.wf() && !pipe.endless()
    }

    open spec fn polled(
        self,
        cx: Context,
        r: Poll<Result<Vec<u8>, Error>>,
        next: Self,
        after: Context,
    ) -> bool {
        exists|got: Seq<u8>, raw: Poll<Result<usize, Error>>| #[trigger]
            self.stepped(cx, got, raw, r, next, after)
    }

    fn poll(&mut self, cx: &mut Context) -> (r: Poll<Result<Vec<u8>, Error>>) {
        let mut pipe: Option<R> = None;
        std::mem::swap(&mut pipe, &mut self.pipe);
        let ghost mut got: Seq<u8> = Seq::empty();
        let raw = match pipe {
            Some(mut reader) => {
                let mut future = ReadToEndFuture { start_len: 0 };
                let raw = future.poll(&mut reader, cx, &mut self.buf);
                proof {
                    got = self.buf@.skip(old(self).buf@.len() as int);
                }
                self.pipe = Some(reader);
                raw
            },
            None => Poll::Ready(Ok(0)),
        };
        assert(self.buf@ =~= old(self).buf@ + got);
        match raw {
            Poll::Pending => {
                assert(old(self).stepped(
                    *old(cx),
                    got,
                    Poll::Pending,
                    Poll::Pending,
                    *self,
                    *cx,
                ));
                Poll::Pending
            },
            Poll::Ready(Ok(n)) => {
                self.done = true;
                let mut out: Vec<u8> = Vec::new();
                std::mem::swap(&mut out, &mut self.buf);
                let r = Poll::Ready(Ok(out));
                assert(old(self).stepped(*old(cx), got, Poll::Ready(Ok(n)), r, *self, *cx));
                r
            },
            Poll::Ready(Err(e)) => {
                self.done = true;
                let r = Poll::Ready(Err(e));
                assert(old(self).stepped(*old(cx), got, Poll::Ready(Err(e)), r, *self, *cx));
                r
            },
        }
    }
}

/// After `n` polls that had to wait, `from` has become `to`.
pub open spec fn waited<R: AsyncRead>(from: ReadPipe<R>, n: nat, to: ReadPipe<R>) -> bool
    decreases n,
{
    if n == 0 {
        to == from
    } else {
        exists|mid: ReadPipe<R>, cx: Context, after: Context|
            {
                &&& waited(from, (n - 1) as nat, mid)
                &&& #[trigger] mid.polled(cx, Poll::Pending, to, after)
            }
    }
}

/// What one poll does to the bytes that came out of the pipe since `base`: while it waits they are
/// all kept, and when it is done they are all handed out.
proof fn lemma_poll_keeps<R: AsyncRead>(
    given: spec_fn(R) -> Seq<u8>,
    base: Seq<u8>,
    from: ReadPipe<R>,
    cx: Context,
    r: Poll<Result<Vec<u8>, Error>>,
    to: ReadPipe<R>,
    after: Context,
)
    requires
        tells_read(given),
        from.pipe is Some,
        given(from.pipe->0) == base + from.buf@,
        from.polled(cx, r, to, after),
    ensures
        to.pipe is Some,
        r is Pending ==> given(to.pipe->0) == base + to.buf@,
        r matches Poll::Ready(Ok(v)) ==> given(to.pipe->0) == base + v@,
{
    let (got, raw) = choose|got: Seq<u8>, raw: Poll<Result<usize, Error>>| #[trigger]
        from.stepped(cx, got, raw, r, to, after);
    law_reads_on(given, from.pipe->0, cx, got, cause(raw), to.pipe->0, after);
    assert(base + from.buf@ + got =~= base + (from.buf@ + got));
}

proof fn lemma_waits_keep<R: AsyncRead>(
    given: spec_fn(R) -> Seq<u8>,
    base: Seq<u8>,
    from: ReadPipe<R>,
    n: nat,
    to: ReadPipe<R>,
)
    requires
        tells_read(given),
        from.pipe is Some,
        given(from.pipe->0) == base + from.buf@,
        waited(from, n, to),
    ensures
        to.pipe is Some,
        given(to.pipe->0) == base + to.buf@,
    decreases n,
{
    if n > 0 {
        let (mid, cx, after) = choose|mid: ReadPipe<R>, cx: Context, after: Context|
            {
                &&& waited(from, (n - 1) as nat, mid)
                &&& #[trigger] mid.polled(cx, Poll::Pending, to, after)
            };
        lemma_waits_keep(given, base, from, (n - 1) as nat, mid);
        lemma_poll_keeps(given, base, mid, cx, Poll::Pending, to, after);
    }
}

/// No byte of what a process puts out is lost, however often its reader has to wait: what comes out
/// in the end is all that the pipe gave in all these polls, in order. `given` tells for the pipe what
/// it gave so far.
pub proof fn law_output_whole<R: AsyncRead>(
    given: spec_fn(R) -> Seq<u8>,
    from: ReadPipe<R>,
    n: nat,
    mid: ReadPipe<R>,
    cx: Context,
    v: Vec<u8>,
    to: ReadPipe<R>,
    after: Context,
)
    requires
        tells_read(given),
        from.pipe is Some,
        from.buf@ == Seq::<u8>::empty(),
        waited(from, n, mid),
        mid.polled(cx, Poll::Ready(Ok(v)), to, after),
    ensures
        to.pipe is Some,
        given(to.pipe->0) == given(from.pipe->0) + v@,
{
    let base = given(from.pipe->0);
    assert(base + from.buf@ =~= base);
    lemma_waits_keep(given, base, from, n, mid);
    lemma_poll_keeps(given, base, mid, cx, Poll::Ready(Ok(v)), to, after);
}

/// What a process puts out is handed out only once it has come to its end, and reading it fails only
/// if the pipe does, with its error; without a pipe there is nothing.
pub proof fn law_output_ends<R: AsyncRead>(
    ended: spec_fn(R) -> bool,
    failed: spec_fn(R, Error) -> bool,
    from: ReadPipe<R>,
    cx: Context,
    r: Poll<Result<Vec<u8>, Error>>,
    to: ReadPipe<R>,
    after: Context,
)
    requires
        tells_end(ended),
        tells_error(failed),
        from.polled(cx, r, to, after),
    ensures
        from.pipe is Some && (r matches Poll::Ready(Ok(_))) ==> to.pipe is Some && ended(to.pipe->0),
        from.pipe is Some ==> (r matches Poll::Ready(Err(e)) ==> failed(to.pipe->0, e)),
        from.pipe is None ==> (r matches Poll::Ready(Ok(v)) && v@ == from.buf@),
{
    let (got, raw) = choose|got: Seq<u8>, raw: Poll<Result<usize, Error>>| #[trigger]
        from.stepped(cx, got, raw, r, to, after);
    assert(from.buf@ + Seq::empty() =~= from.buf@);
    if from.pipe is Some {
        law_ends_with_the_reader(
            ended,
            failed,
            from.pipe->0,
            cx,
            got,
            raw,
            to.pipe->0,
            after,
        );
    }
}

/// What a process has put out, and how it has ended.
#[derive(Debug)]
pub struct Output {
    pub status: ExitStatus,
    pub stdout: Vec<u8>,
    pub stderr: Vec<u8>,
}

/// Begins to collect what a process puts out, both outputs at the same time.
pub fn collect<O: AsyncRead, E: AsyncRead>(stdout: Option<O>, stderr: Option<E>) -> (r: TryZip<
    ReadPipe<O>,
    ReadPipe<E>,
>)
    ensures
        r.future1.pipe == stdout,
        r.future2.pipe == stderr,
        r.future1.buf@ == Seq::<u8>::empty(),
        r.future2.buf@ == Seq::<u8>::empty(),
        !r.future1.done,
        !r.future2.done,
        r.output1 is None,
        r.output2 is None,
{
    try_zip(ReadPipe::new(stdout), ReadPipe::new(stderr))
}

/// What comes of a process whose output was collected: an error of that goes before one of
/// waiting for its end.
pub fn output(
    collected: Result<(Vec<u8>, Vec<u8>), Error>,
    status: Result<ExitStatus, Error>,
) -> (r: Result<Output, Error>)
    ensures
        match (collected, status) {
            (Err(e), _) => r == Err::<Output, Error>(e),
            (Ok(_), Err(e)) => r == Err::<Output, Error>(e),
            (Ok((stdout, stderr)), Ok(status)) => r == Ok::<Output, Error>(
                Output { status, stdout, stderr },
            ),
        },
{
    match collected {
        Err(e) => Err(e),
        Ok((stdout, stderr)) => match status {
            Err(e) => Err(e),
            Ok(status) => Ok(Output { status, stdout, stderr }),
        },
    }
}

/// Of several errors that keep a process from being handed out, the first is told: that of starting
/// it before those of its pipes, its input before its outputs, and that of watching it last.
pub proof fn law_first_trouble<P, I, O, E>(spawned: Result<Spawned<P, I, O, E>, Error>)
    ensures
        spawned matches Err(e) ==> Child::<P, I, O, E>::trouble(spawned) == Some(e),
        spawned matches Ok(s) ==> {
            let told = Child::<P, I, O, E>::trouble(spawned);
            &&& s.stdin matches Some(Err(e)) ==> told == Some(e)
            &&& !(s.stdin matches Some(Err(_))) ==> (s.stdout matches Some(Err(e)) ==> told == Some(
                e,
            ))
            &&& !(s.stdin matches Some(Err(_))) && !(s.stdout matches Some(Err(_))) ==> (
            s.stderr matches Some(Err(e)) ==> told == Some(e))
            &&& told is None ==> s.watched is Ok && !(s.stdin matches Some(Err(_))) && !(
            s.stdout matches Some(Err(_))) && !(s.stderr matches Some(Err(_)))
        },
{
}

/// How a process has ended is told as soon as it is known, and an error too. Before one waits, the
/// process is asked once more with the listener in place, so that it cannot end unnoticed; and whoever
/// was notified does not wait but asks again.
pub proof fn law_asked_before_waiting(
    before: &StatusFuture,
    answer: Answer,
    event: &Event,
    cx: &Context,
    r: StatusStep,
    stage: Stage,
    event_after: &Event,
    woken_after: Seq<Wake>,
)
    requires
        before.stage is Asking,
        before.hears(answer, event, cx, r, stage, event_after, woken_after),
    ensures
        answer matches Ok(Some(status)) ==> r == StatusStep::Done(Ok::<ExitStatus, Error>(status)),
        answer matches Err(e) ==> r == StatusStep::Done(Err::<ExitStatus, Error>(e)),
        answer matches Ok(None) ==> !(r is Done),
        r is Done <==> stage is Done,
        r is Ask <==> stage is Asking,
        r is Pending <==> stage is Listening,
        r is Pending ==> (before.stage matches Stage::Asking(Some(listener)) && !(listener.state(
            event,
        ) is Notified)),
        before.stage matches Stage::Asking(None) && (answer matches Ok(None)) ==> (
        stage matches Stage::Asking(Some(listener)) && listens(event, event_after, &listener)),
        (answer matches Ok(None)) ==> (before.stage matches Stage::Asking(Some(listener))
            && listener.state(event) is Notified ==> r is Ask),
{
}

} // verus!
