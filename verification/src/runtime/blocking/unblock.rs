//! Blocking input and output as seen from a task.
//!
//! An [`Unblock`] hands its value to a thread that blocks, and talks to it through a pipe. What it
//! does next depends on what that thread is at, and on what came of it; the caller starts the
//! threads and asks after them.

use vstd::prelude::*;
use crate::io::error::Error;
use crate::io::stream::{copy_bytes, Collector, SeekFrom, SliceReader};
use crate::io::stream::{Read, Write};
use crate::runtime::blocking::pipe::{pipe, wake_of, Pipe, Reader, Writer};
use crate::task::{Context, Poll, Wake};

verus! {

/// How many bytes a pipe holds if nothing else was said.
pub const DEFAULT_CAPACITY: usize = 8388608;

/// How many items a stream holds if nothing else was said.
pub const DEFAULT_ITEMS: usize = 8192;

/// What is going on.
pub enum State<T> {
    /// Nothing; the value is here, unless it was taken out.
    Idle(Option<T>),
    /// A function runs with the value.
    WithMut,
    /// Items are taken from the value; the flag says whether somebody still receives them.
    Streaming(bool),
    /// Bytes are read from the value.
    Reading(Option<Reader>),
    /// Bytes are written to the value.
    Writing(Option<Writer>),
    /// The value goes to another position.
    Seeking,
}

/// What a thread that blocked came back with.
pub enum Output<T> {
    /// The value, after a function ran with it or its items were taken.
    Value(T),
    /// The value, after bytes were read or written.
    Done(Result<(), Error>, T),
    /// The value, after it went to a position.
    Sought(SeekFrom, Result<u64, Error>, T),
}

impl<T> Output<T> {
    pub open spec fn value(self) -> T {
        match self {
            Output::Value(value) => value,
            Output::Done(_, value) => value,
            Output::Sought(_, _, value) => value,
        }
    }

    /// The error that the thread came back with.
    pub open spec fn error(self) -> Option<Error> {
        match self {
            Output::Value(_) => None,
            Output::Done(Ok(_), _) => None,
            Output::Done(Err(error), _) => Some(error),
            Output::Sought(_, Ok(_), _) => None,
            Output::Sought(_, Err(error), _) => Some(error),
        }
    }
}

/// What letting go of this end of the pipe, or of the stream, makes of the state.
pub open spec fn stopping<T>(state: State<T>) -> State<T> {
    match state {
        State::Reading(_) => State::Reading(None),
        State::Writing(_) => State::Writing(None),
        State::Streaming(_) => State::Streaming(false),
        state => state,
    }
}

/// What letting go of this end of the pipe makes of the pipe: it is closed.
pub open spec fn let_go_of<T>(state: State<T>, pipe: Pipe, after: Pipe) -> bool {
    match state {
        State::Reading(Some(_)) => {
            &&& after.wf()
            &&& after.closed()
            &&& after.content() == pipe.content()
            &&& after.capacity() == pipe.capacity()
            &&& after.reader() == pipe.reader()
            &&& after.writer() is None
        },
        State::Writing(Some(_)) => {
            &&& after.wf()
            &&& after.closed()
            &&& after.content() == pipe.content()
            &&& after.capacity() == pipe.capacity()
            &&& after.writer() == pipe.writer()
            &&& after.reader() is None
        },
        _ => after == pipe,
    }
}

/// Those whom letting go of this end of the pipe wakes up: whoever waits at the other end.
pub open spec fn freed<T>(state: State<T>, pipe: Pipe) -> Seq<Wake> {
    match state {
        State::Reading(Some(_)) => wake_of(pipe.writer()),
        State::Writing(Some(_)) => wake_of(pipe.reader()),
        _ => Seq::empty(),
    }
}

/// A pipe that nobody has used yet.
pub open spec fn unused(pipe: Pipe, cap: usize) -> bool {
    &&& pipe.wf()
    &&& pipe.content() == Seq::<u8>::empty()
    &&& pipe.capacity() == cap
    &&& !pipe.closed()
    &&& pipe.reader() is None
    &&& pipe.writer() is None
}

/// What the caller is to do next.
pub enum Step<T, W, R> {
    /// It asks after the thread, and then calls again with what came of it.
    AskThread,
    /// It starts a thread with the value, and then calls again.
    Start(T, W),
    /// It is done.
    Done(R),
}

/// What came of asking, where waiting is called for.
pub type Asked<T, W> = Step<T, W, Poll<Result<usize, Error>>>;

/// What reading from the pipe into the front of `buf` gives, as far as the bytes reach that the
/// reader can see.
pub open spec fn pipe_read<T>(
    reader: Reader,
    pipe: Pipe,
    cx: Context,
    buf: Seq<u8>,
    lot: usize,
    r: Asked<T, Writer>,
    pipe_after: Pipe,
    cx_after: Context,
    buf_after: Seq<u8>,
) -> bool {
    let visible = reader.visible(&pipe);
    let waits = visible == 0 && !pipe.closed();
    let yields = visible > 0 && lot == 0;
    let n = if waits || yields {
        0
    } else if visible < buf.len() {
        visible
    } else {
        buf.len()
    };
    &&& r == (if waits || yields {
        Asked::<T, Writer>::Done(Poll::Pending)
    } else if n == 0 {
        Step::AskThread
    } else {
        Step::Done(Poll::Ready(Ok(n as usize)))
    })
    &&& pipe_after.closed() == pipe.closed()
    &&& pipe_after.capacity() == pipe.capacity()
    &&& pipe_after.content() == pipe.content().skip(n as int)
    &&& buf_after == pipe.content().take(n as int) + buf.skip(n as int)
    &&& pipe_after.reader() == (if visible == 0 {
        Some(cx.waker)
    } else {
        None
    })
    &&& pipe_after.writer() == (if n > 0 {
        None
    } else {
        pipe.writer()
    })
    &&& cx_after.woken@ == (if yields {
        cx.woken@.push(Wake::Task(cx.waker))
    } else if n > 0 {
        cx.woken@ + wake_of(pipe.writer())
    } else {
        cx.woken@
    })
}

/// What writing from the front of `buf` into the pipe gives, as far as the room reaches that the
/// writer can see.
pub open spec fn pipe_written<T>(
    writer: Writer,
    pipe: Pipe,
    cx: Context,
    buf: Seq<u8>,
    lot: usize,
    r: Asked<T, Reader>,
    pipe_after: Pipe,
    cx_after: Context,
) -> bool {
    let visible = writer.visible(&pipe);
    let waits = visible == 0 && !pipe.closed();
    let yields = visible > 0 && lot == 0 && !pipe.closed();
    let n = if waits || yields || pipe.closed() {
        0
    } else if visible < buf.len() {
        visible
    } else {
        buf.len()
    };
    &&& r == (if waits || yields {
        Asked::<T, Reader>::Done(Poll::Pending)
    } else {
        Step::Done(Poll::Ready(Ok(n as usize)))
    })
    &&& pipe_after.closed() == pipe.closed()
    &&& pipe_after.capacity() == pipe.capacity()
    &&& pipe_after.content() == pipe.content() + buf.take(n as int)
    &&& pipe_after.writer() == (if pipe.closed() {
        pipe.writer()
    } else if visible == 0 {
        Some(cx.waker)
    } else {
        None
    })
    &&& pipe_after.reader() == (if n > 0 {
        None
    } else {
        pipe.reader()
    })
    &&& cx_after.woken@ == (if yields {
        cx.woken@.push(Wake::Task(cx.waker))
    } else if n > 0 {
        cx.woken@ + wake_of(pipe.reader())
    } else {
        cx.woken@
    })
}

/// A value whose operations block.
pub struct Unblock<T> {
    state: State<T>,
    cap: Option<usize>,
}

impl<T> Unblock<T> {
    pub closed spec fn state(&self) -> State<T> {
        self.state
    }

    pub closed spec fn cap(&self) -> Option<usize> {
        self.cap
    }

    pub open spec fn wf(&self, pipe: &Pipe) -> bool {
        &&& self.cap() matches Some(cap) ==> 0 < cap && 2 * cap <= usize::MAX
        &&& self.state() matches State::Reading(Some(reader)) ==> pipe.wf() && reader.wf(pipe)
        &&& self.state() matches State::Writing(Some(writer)) ==> pipe.wf() && writer.wf(pipe)
    }

    /// What the thread may come back with.
    pub open spec fn expects(&self, output: Output<T>) -> bool {
        match self.state() {
            State::Idle(_) => false,
            State::WithMut => output is Value,
            State::Streaming(_) => output is Value,
            State::Reading(_) => output is Done,
            State::Writing(_) => output is Done,
            State::Seeking => output is Sought,
        }
    }

    pub open spec fn expects_poll(&self, task: Option<Poll<Output<T>>>) -> bool {
        task matches Some(Poll::Ready(output)) ==> self.expects(output)
    }

    /// The value was taken out and will not come back.
    pub open spec fn gone(&self) -> bool {
        self.state() == State::<T>::Idle(None)
    }

    pub fn new(io: T) -> (r: Self)
        ensures
            r.state() == State::Idle(Some(io)),
            r.cap() is None,
    {
        Unblock { state: State::Idle(Some(io)), cap: None }
    }

    pub fn with_capacity(cap: usize, io: T) -> (r: Self)
        ensures
            r.state() == State::Idle(Some(io)),
            r.cap() == Some(cap),
    {
        Unblock { state: State::Idle(Some(io)), cap: Some(cap) }
    }

    /// Nothing is going on.
    pub fn is_idle(&self) -> (r: bool)
        ensures
            r == (self.state() is Idle),
    {
        match &self.state {
            State::Idle(_) => true,
            _ => false,
        }
    }

    /// Lets go of this end of the pipe, or of the stream.
    fn let_go(&mut self, pipe: &mut Pipe, woken: &mut Vec<Wake>)
        requires
            old(self).wf(old(pipe)),
        ensures
            final(self).wf(final(pipe)),
            final(self).cap() == old(self).cap(),
            final(self).state() == stopping(old(self).state()),
            let_go_of(old(self).state(), *old(pipe), *final(pipe)),
            final(woken)@ == old(woken)@ + freed(old(self).state(), *old(pipe)),
    {
        assert(woken@ =~= old(woken)@ + Seq::<Wake>::empty());
        match &mut self.state {
            State::Reading(reader) => match reader.take() {
                Some(reader) => reader.drop(pipe, woken),
                None => {},
            },
            State::Writing(writer) => match writer.take() {
                Some(writer) => writer.drop(pipe, woken),
                None => {},
            },
            State::Streaming(receiver) => {
                *receiver = false;
            },
            _ => {},
        }
    }

    /// Stops what is going on: closes the pipe, and waits until the thread has come back. The
    /// caller says in `task` what came of asking after the thread.
    pub fn poll_stop(
        &mut self,
        pipe: &mut Pipe,
        task: Option<Poll<Output<T>>>,
        woken: &mut Vec<Wake>,
    ) -> (r: Step<T, (), Poll<Result<(), Error>>>)
        requires
            old(self).wf(old(pipe)),
            old(self).expects_poll(task),
        ensures
            final(self).wf(final(pipe)),
            final(self).cap() == old(self).cap(),
            let_go_of(old(self).state(), *old(pipe), *final(pipe)),
            final(woken)@ == old(woken)@ + freed(old(self).state(), *old(pipe)),
            match (old(self).state(), task) {
                (State::Idle(_), _) => {
                    &&& r == Step::<T, (), Poll<Result<(), Error>>>::Done(Poll::Ready(Ok(())))
                    &&& final(self).state() == old(self).state()
                },
                (_, Some(Poll::Ready(output))) => {
                    &&& final(self).state() == State::Idle(Some(output.value()))
                    &&& r == Step::<T, (), Poll<Result<(), Error>>>::Done(
                        Poll::Ready(
                            match output.error() {
                                None => Ok(()),
                                Some(error) => Err(error),
                            },
                        ),
                    )
                },
                (state, task) => {
                    &&& r == (if task is Some {
                        Step::<T, (), Poll<Result<(), Error>>>::Done(Poll::Pending)
                    } else {
                        Step::AskThread
                    })
                    &&& final(self).state() == stopping(state)
                },
            },
    {
        assert(woken@ =~= old(woken)@ + Seq::<Wake>::empty());
        if self.is_idle() {
            return Step::Done(Poll::Ready(Ok(())));
        }
        self.let_go(pipe, woken);
        match task {
            None => Step::AskThread,
            Some(Poll::Pending) => Step::Done(Poll::Pending),
            Some(Poll::Ready(output)) => {
                let (res, io) = match output {
                    Output::Value(io) => (Ok(()), io),
                    Output::Done(res, io) => (res, io),
                    Output::Sought(_, Ok(_), io) => (Ok(()), io),
                    Output::Sought(_, Err(error), io) => (Err(error), io),
                };
                self.state = State::Idle(Some(io));
                match res {
                    Ok(_) => Step::Done(Poll::Ready(Ok(()))),
                    Err(error) => Step::Done(Poll::Ready(Err(error))),
                }
            },
        }
    }

    /// Takes the value out for a function to run with it.
    pub fn start_with_mut(&mut self) -> (r: T)
        requires
            old(self).state() matches State::Idle(Some(_)),
        ensures
            old(self).state() == State::Idle(Some(r)),
            final(self).state() is WithMut,
            final(self).cap() == old(self).cap(),
    {
        let mut state = State::WithMut;
        core::mem::swap(&mut state, &mut self.state);
        match state {
            State::Idle(io) => io.unwrap(),
            _ => vstd::pervasive::unreached(),
        }
    }

    /// The value, where nothing is going on.
    pub fn get_mut(&mut self) -> (r: &mut T)
        requires
            old(self).state() matches State::Idle(Some(_)),
        ensures
            old(self).state() == State::Idle(Some(*r)),
            final(self).state() == State::Idle(Some(*final(r))),
            final(self).cap() == old(self).cap(),
    {
        match &mut self.state {
            State::Idle(Some(io)) => io,
            _ => vstd::pervasive::unreached(),
        }
    }

    /// The value, where nothing is going on.
    pub fn into_inner(self) -> (r: T)
        requires
            self.state() matches State::Idle(Some(_)),
        ensures
            self.state() == State::Idle(Some(r)),
    {
        match self.state {
            State::Idle(io) => io.unwrap(),
            _ => vstd::pervasive::unreached(),
        }
    }

    /// How many bytes the pipe holds.
    pub open spec fn pipe_capacity(&self) -> usize {
        match self.cap() {
            Some(cap) => cap,
            None => DEFAULT_CAPACITY,
        }
    }

    /// Takes the value out and makes a new pipe for it.
    fn start_pipe(&mut self, shared: &mut Pipe) -> (r: (T, Reader, Writer))
        requires
            old(self).wf(old(shared)),
            old(self).state() matches State::Idle(Some(_)),
        ensures
            old(self).state() == State::Idle(Some(r.0)),
            final(self).state() == State::<T>::Idle(None),
            final(self).cap() == old(self).cap(),
            unused(*final(shared), old(self).pipe_capacity()),
            r.1.wf(final(shared)),
            r.2.wf(final(shared)),
    {
        let mut state = State::Idle(None);
        core::mem::swap(&mut state, &mut self.state);
        let io = match state {
            State::Idle(io) => io.unwrap(),
            _ => vstd::pervasive::unreached(),
        };
        let cap: usize = match self.cap {
            Some(cap) => cap,
            None => DEFAULT_CAPACITY,
        };
        let (p, reader, writer) = pipe(cap);
        *shared = p;
        (io, reader, writer)
    }

    /// Reads into the front of `buf`. In `task` the caller says what came of asking after the
    /// thread; at first it does not.
    pub fn poll_read(
        &mut self,
        shared: &mut Pipe,
        cx: &mut Context,
        buf: &mut [u8],
        task: Option<Poll<Output<T>>>,
        lot: usize,
    ) -> (r: Step<T, Writer, Poll<Result<usize, Error>>>)
        requires
            old(self).wf(old(shared)),
            old(self).expects_poll(task),
            !old(self).gone(),
        ensures
            final(self).wf(final(shared)),
            final(self).cap() == old(self).cap(),
            final(cx).waker == old(cx).waker,
            final(buf)@.len() == old(buf)@.len(),
            match (old(self).state(), task) {
                (State::Idle(Some(io)), _) => {
                    // A thread is started that fills a new pipe.
                    &&& r matches Step::Start(value, writer) && value == io && writer.wf(
                        final(shared),
                    )
                    &&& final(self).state() matches State::Reading(Some(_))
                    &&& unused(*final(shared), old(self).pipe_capacity())
                    &&& final(cx).woken@ == old(cx).woken@
                    &&& final(buf)@ == old(buf)@
                },
                (State::Reading(Some(reader)), None) => {
                    // The bytes in the pipe are read.
                    &&& final(self).state() matches State::Reading(Some(_))
                    &&& pipe_read(
                        reader,
                        *old(shared),
                        *old(cx),
                        old(buf)@,
                        lot,
                        r,
                        *final(shared),
                        *final(cx),
                        final(buf)@,
                    )
                },
                (State::Reading(Some(_)), Some(Poll::Ready(output))) => {
                    // The pipe had run dry, and the thread has come back.
                    &&& final(self).state() == State::Idle(Some(output.value()))
                    &&& r == Step::<T, Writer, Poll<Result<usize, Error>>>::Done(
                        Poll::Ready(
                            match output.error() {
                                None => Ok(0),
                                Some(error) => Err(error),
                            },
                        ),
                    )
                    &&& *final(shared) == *old(shared)
                    &&& final(cx).woken@ == old(cx).woken@
                    &&& final(buf)@ == old(buf)@
                },
                (State::Reading(Some(_)), Some(Poll::Pending)) => {
                    &&& final(self).state() == old(self).state()
                    &&& r == Step::<T, Writer, Poll<Result<usize, Error>>>::Done(Poll::Pending)
                    &&& *final(shared) == *old(shared)
                    &&& final(cx).woken@ == old(cx).woken@
                    &&& final(buf)@ == old(buf)@
                },
                (_, Some(Poll::Ready(output))) => {
                    // What was going on has stopped.
                    &&& final(cx).woken@ == old(cx).woken@ + freed(
                        old(self).state(),
                        *old(shared),
                    )
                    &&& final(buf)@ == old(buf)@
                    &&& match output.error() {
                        Some(error) => {
                            &&& final(self).state() == State::Idle(Some(output.value()))
                            &&& r == Step::<T, Writer, Poll<Result<usize, Error>>>::Done(
                                Poll::Ready(Err(error)),
                            )
                            &&& let_go_of(old(self).state(), *old(shared), *final(shared))
                        },
                        None => {
                            &&& r matches Step::Start(value, writer) && value == output.value()
                                && writer.wf(final(shared))
                            &&& final(self).state() matches State::Reading(Some(_))
                            &&& unused(*final(shared), old(self).pipe_capacity())
                        },
                    }
                },
                (_, task) => {
                    // What is going on is being stopped.
                    &&& final(self).state() == stopping(old(self).state())
                    &&& let_go_of(old(self).state(), *old(shared), *final(shared))
                    &&& final(cx).woken@ == old(cx).woken@ + freed(
                        old(self).state(),
                        *old(shared),
                    )
                    &&& r == (if task is Some {
                        Step::<T, Writer, Poll<Result<usize, Error>>>::Done(Poll::Pending)
                    } else {
                        Step::AskThread
                    })
                    &&& final(buf)@ == old(buf)@
                },
            },
    {
        let reading = match &self.state {
            State::Reading(Some(_)) => true,
            _ => false,
        };
        if reading {
            return match task {
                None => self.read_pipe(shared, cx, buf, lot),
                Some(Poll::Pending) => Step::Done(Poll::Pending),
                Some(Poll::Ready(output)) => match output {
                    Output::Done(res, io) => {
                        self.state = State::Idle(Some(io));
                        match res {
                            Ok(_) => Step::Done(Poll::Ready(Ok(0))),
                            Err(error) => Step::Done(Poll::Ready(Err(error))),
                        }
                    },
                    _ => vstd::pervasive::unreached(),
                },
            };
        }
        match self.poll_stop(shared, task, &mut cx.woken) {
            Step::AskThread => return Step::AskThread,
            Step::Done(Poll::Pending) => return Step::Done(Poll::Pending),
            Step::Done(Poll::Ready(Err(error))) => return Step::Done(Poll::Ready(Err(error))),
            _ => {},
        }
        let (io, reader, writer) = self.start_pipe(shared);
        self.state = State::Reading(Some(reader));
        Step::Start(io, writer)
    }

    /// Reads what is in the pipe.
    fn read_pipe(&mut self, shared: &mut Pipe, cx: &mut Context, buf: &mut [u8], lot: usize) -> (r:
        Step<T, Writer, Poll<Result<usize, Error>>>)
        requires
            old(self).wf(old(shared)),
            old(self).state() matches State::Reading(Some(_)),
        ensures
            final(self).wf(final(shared)),
            final(self).cap() == old(self).cap(),
            final(cx).waker == old(cx).waker,
            final(buf)@.len() == old(buf)@.len(),
            final(self).state() matches State::Reading(Some(_)),
            pipe_read(
                old(self).state()->Reading_0->0,
                *old(shared),
                *old(cx),
                old(buf)@,
                lot,
                r,
                *final(shared),
                *final(cx),
                final(buf)@,
            ),
    {
        let mut sink = Collector::new(buf.len());
        let ghost all = shared.content();
        proof {
            assert(all.take(0) =~= Seq::<u8>::empty());
            assert(all.skip(0) =~= all);
        }
        let drained = match &mut self.state {
            State::Reading(Some(reader)) => reader.drain(shared, cx, &mut sink, lot),
            _ => vstd::pervasive::unreached(),
        };
        proof {
            assert(Seq::<u8>::empty() + all.take(sink.bytes@.len() as int) =~= all.take(
                sink.bytes@.len() as int,
            ));
            assert(sink.bytes@ =~= all.take(sink.bytes@.len() as int));
        }
        match drained {
            Poll::Pending => {
                assert(buf@ =~= all.take(0) + old(buf)@.skip(0));
                Step::Done(Poll::Pending)
            },
            Poll::Ready(Err(error)) => Step::Done(Poll::Ready(Err(error))),
            Poll::Ready(Ok(n)) => {
                copy_bytes(sink.bytes.as_slice(), 0, buf, 0, n);
                assert(buf@ =~= all.take(n as int) + old(buf)@.skip(n as int));
                if n == 0 {
                    Step::AskThread
                } else {
                    Step::Done(Poll::Ready(Ok(n)))
                }
            },
        }
    }

    /// Writes from the front of `buf`. In `task` the caller says what came of asking after the
    /// thread; at first it does not.
    pub fn poll_write(
        &mut self,
        shared: &mut Pipe,
        cx: &mut Context,
        buf: &[u8],
        task: Option<Poll<Output<T>>>,
        lot: usize,
    ) -> (r: Step<T, Reader, Poll<Result<usize, Error>>>)
        requires
            old(self).wf(old(shared)),
            old(self).expects_poll(task),
            !old(self).gone(),
            task is Some ==> !(old(self).state() matches State::Writing(Some(_))),
        ensures
            final(self).wf(final(shared)),
            final(self).cap() == old(self).cap(),
            final(cx).waker == old(cx).waker,
            match (old(self).state(), task) {
                (State::Idle(Some(io)), _) => {
                    // A thread is started that drains a new pipe.
                    &&& r matches Step::Start(value, reader) && value == io && reader.wf(
                        final(shared),
                    )
                    &&& final(self).state() matches State::Writing(Some(_))
                    &&& unused(*final(shared), old(self).pipe_capacity())
                    &&& final(cx).woken@ == old(cx).woken@
                },
                (State::Writing(Some(writer)), _) => {
                    // The bytes go into the pipe.
                    &&& final(self).state() matches State::Writing(Some(_))
                    &&& pipe_written(
                        writer,
                        *old(shared),
                        *old(cx),
                        buf@,
                        lot,
                        r,
                        *final(shared),
                        *final(cx),
                    )
                },
                (_, Some(Poll::Ready(output))) => {
                    // What was going on has stopped.
                    &&& final(cx).woken@ == old(cx).woken@ + freed(
                        old(self).state(),
                        *old(shared),
                    )
                    &&& match output.error() {
                        Some(error) => {
                            &&& final(self).state() == State::Idle(Some(output.value()))
                            &&& r == Step::<T, Reader, Poll<Result<usize, Error>>>::Done(
                                Poll::Ready(Err(error)),
                            )
                            &&& let_go_of(old(self).state(), *old(shared), *final(shared))
                        },
                        None => {
                            &&& r matches Step::Start(value, reader) && value == output.value()
                                && reader.wf(final(shared))
                            &&& final(self).state() matches State::Writing(Some(_))
                            &&& unused(*final(shared), old(self).pipe_capacity())
                        },
                    }
                },
                (_, task) => {
                    // What is going on is being stopped.
                    &&& final(self).state() == stopping(old(self).state())
                    &&& let_go_of(old(self).state(), *old(shared), *final(shared))
                    &&& final(cx).woken@ == old(cx).woken@ + freed(
                        old(self).state(),
                        *old(shared),
                    )
                    &&& r == (if task is Some {
                        Step::<T, Reader, Poll<Result<usize, Error>>>::Done(Poll::Pending)
                    } else {
                        Step::AskThread
                    })
                },
            },
    {
        match &mut self.state {
            State::Writing(Some(writer)) => {
                let mut source = SliceReader::new(buf);
                let filled = writer.fill(shared, cx, &mut source, lot);
                proof {
                    let given = source.given();
                    assert(given.skip(0) =~= given);
                    assert(given =~= buf@.take(given.len() as int));
                    assert(old(shared).content() + Seq::<u8>::empty() =~= old(shared).content());
                    assert(buf@.take(buf@.len() as int) =~= buf@);
                }
                return Step::Done(filled);
            },
            _ => {},
        }
        match self.poll_stop(shared, task, &mut cx.woken) {
            Step::AskThread => return Step::AskThread,
            Step::Done(Poll::Pending) => return Step::Done(Poll::Pending),
            Step::Done(Poll::Ready(Err(error))) => return Step::Done(Poll::Ready(Err(error))),
            _ => {},
        }
        let (io, reader, writer) = self.start_pipe(shared);
        self.state = State::Writing(Some(writer));
        Step::Start(io, reader)
    }

    /// Waits until all bytes have been written; closes the pipe for that.
    pub fn poll_flush(
        &mut self,
        shared: &mut Pipe,
        cx: &mut Context,
        task: Option<Poll<Output<T>>>,
    ) -> (r: Step<T, (), Poll<Result<(), Error>>>)
        requires
            old(self).wf(old(shared)),
            old(self).expects_poll(task),
        ensures
            final(self).wf(final(shared)),
            final(self).cap() == old(self).cap(),
            final(cx).waker == old(cx).waker,
            let_go_of(old(self).state(), *old(shared), *final(shared)),
            final(cx).woken@ == old(cx).woken@ + freed(old(self).state(), *old(shared)),
            match (old(self).state(), task) {
                (State::Idle(_), _) => {
                    &&& r == Step::<T, (), Poll<Result<(), Error>>>::Done(Poll::Ready(Ok(())))
                    &&& final(self).state() == old(self).state()
                },
                (_, Some(Poll::Ready(output))) => {
                    &&& final(self).state() == State::Idle(Some(output.value()))
                    &&& r == Step::<T, (), Poll<Result<(), Error>>>::Done(
                        Poll::Ready(
                            match output.error() {
                                None => Ok(()),
                                Some(error) => Err(error),
                            },
                        ),
                    )
                },
                (_, task) => {
                    &&& r == (if task is Some {
                        Step::<T, (), Poll<Result<(), Error>>>::Done(Poll::Pending)
                    } else {
                        Step::AskThread
                    })
                    &&& final(self).state() == stopping(old(self).state())
                },
            },
    {
        self.poll_stop(shared, task, &mut cx.woken)
    }

    /// Waits until all bytes have been written, and then lets go of the value.
    pub fn poll_close(
        &mut self,
        shared: &mut Pipe,
        cx: &mut Context,
        task: Option<Poll<Output<T>>>,
    ) -> (r: Step<T, (), Poll<Result<(), Error>>>)
        requires
            old(self).wf(old(shared)),
            old(self).expects_poll(task),
        ensures
            final(self).wf(final(shared)),
            final(self).cap() == old(self).cap(),
            final(cx).waker == old(cx).waker,
            let_go_of(old(self).state(), *old(shared), *final(shared)),
            final(cx).woken@ == old(cx).woken@ + freed(old(self).state(), *old(shared)),
            match (old(self).state(), task) {
                (State::Idle(_), _) => {
                    &&& r == Step::<T, (), Poll<Result<(), Error>>>::Done(Poll::Ready(Ok(())))
                    &&& final(self).gone()
                },
                (_, Some(Poll::Ready(output))) => match output.error() {
                    None => {
                        &&& r == Step::<T, (), Poll<Result<(), Error>>>::Done(Poll::Ready(Ok(())))
                        &&& final(self).gone()
                    },
                    Some(error) => {
                        &&& r == Step::<T, (), Poll<Result<(), Error>>>::Done(
                            Poll::Ready(Err(error)),
                        )
                        &&& final(self).state() == State::Idle(Some(output.value()))
                    },
                },
                (_, task) => {
                    &&& r == (if task is Some {
                        Step::<T, (), Poll<Result<(), Error>>>::Done(Poll::Pending)
                    } else {
                        Step::AskThread
                    })
                    &&& final(self).state() == stopping(old(self).state())
                },
            },
    {
        match self.poll_flush(shared, cx, task) {
            Step::Done(Poll::Ready(Ok(_))) => {
                self.state = State::Idle(None);
                Step::Done(Poll::Ready(Ok(())))
            },
            step => step,
        }
    }

    /// Goes to the position `pos`. In `task` the caller says what came of asking after the thread;
    /// at first it does not.
    pub fn poll_seek(
        &mut self,
        shared: &mut Pipe,
        cx: &mut Context,
        pos: SeekFrom,
        task: Option<Poll<Output<T>>>,
    ) -> (r: Step<T, SeekFrom, Poll<Result<u64, Error>>>)
        requires
            old(self).wf(old(shared)),
            old(self).expects_poll(task),
            !old(self).gone(),
        ensures
            final(self).wf(final(shared)),
            final(self).cap() == old(self).cap(),
            final(cx).waker == old(cx).waker,
            let_go_of(old(self).state(), *old(shared), *final(shared)),
            final(cx).woken@ == old(cx).woken@ + freed(old(self).state(), *old(shared)),
            match (old(self).state(), task) {
                (State::Idle(Some(io)), _) => {
                    &&& r == Step::<T, SeekFrom, Poll<Result<u64, Error>>>::Start(io, pos)
                    &&& final(self).state() is Seeking
                },
                (_, Some(Poll::Ready(output))) => match (output, output.error()) {
                    (_, Some(error)) => {
                        &&& r == Step::<T, SeekFrom, Poll<Result<u64, Error>>>::Done(
                            Poll::Ready(Err(error)),
                        )
                        &&& final(self).state() == State::Idle(Some(output.value()))
                    },
                    (Output::Sought(sought, Ok(current), io), None) => if sought == pos {
                        &&& r == Step::<T, SeekFrom, Poll<Result<u64, Error>>>::Done(
                            Poll::Ready(Ok(current)),
                        )
                        &&& final(self).state() == State::Idle(Some(io))
                    } else {
                        // It went to another position, for somebody who gave up.
                        &&& r == Step::<T, SeekFrom, Poll<Result<u64, Error>>>::Start(io, pos)
                        &&& final(self).state() is Seeking
                    },
                    _ => {
                        &&& r == Step::<T, SeekFrom, Poll<Result<u64, Error>>>::Start(
                            output.value(),
                            pos,
                        )
                        &&& final(self).state() is Seeking
                    },
                },
                (_, task) => {
                    &&& r == (if task is Some {
                        Step::<T, SeekFrom, Poll<Result<u64, Error>>>::Done(Poll::Pending)
                    } else {
                        Step::AskThread
                    })
                    &&& final(self).state() == stopping(old(self).state())
                },
            },
    {
        let seeking = match &self.state {
            State::Seeking => true,
            _ => false,
        };
        if seeking {
            let output = match task {
                None => return Step::AskThread,
                Some(Poll::Pending) => return Step::Done(Poll::Pending),
                Some(Poll::Ready(output)) => output,
            };
            return match output {
                Output::Sought(sought, res, io) => match res {
                    Err(error) => {
                        self.state = State::Idle(Some(io));
                        Step::Done(Poll::Ready(Err(error)))
                    },
                    Ok(current) => if sought == pos {
                        self.state = State::Idle(Some(io));
                        Step::Done(Poll::Ready(Ok(current)))
                    } else {
                        Step::Start(io, pos)
                    },
                },
                _ => vstd::pervasive::unreached(),
            };
        }
        match self.poll_stop(shared, task, &mut cx.woken) {
            Step::AskThread => return Step::AskThread,
            Step::Done(Poll::Pending) => return Step::Done(Poll::Pending),
            Step::Done(Poll::Ready(Err(error))) => return Step::Done(Poll::Ready(Err(error))),
            _ => {},
        }
        let mut state = State::Seeking;
        core::mem::swap(&mut state, &mut self.state);
        match state {
            State::Idle(io) => Step::Start(io.unwrap(), pos),
            _ => vstd::pervasive::unreached(),
        }
    }

    /// The next item of a stream. In `task` the caller says what came of asking after the thread,
    /// and in `item` what came of asking for an item.
    pub fn poll_next<I>(
        &mut self,
        shared: &mut Pipe,
        cx: &mut Context,
        item: Option<Poll<Option<I>>>,
        task: Option<Poll<Output<T>>>,
    ) -> (r: NextStep<T, I>)
        requires
            old(self).wf(old(shared)),
            old(self).expects_poll(task),
            !old(self).gone(),
        ensures
            final(self).wf(final(shared)),
            final(self).cap() == old(self).cap(),
            final(cx).waker == old(cx).waker,
            let_go_of(old(self).state(), *old(shared), *final(shared)),
            final(cx).woken@ == old(cx).woken@ + freed(old(self).state(), *old(shared)),
            match (old(self).state(), item, task) {
                (State::Idle(Some(io)), _, _) => {
                    // A thread is started that sends the items.
                    &&& r == NextStep::<T, I>::Start(io, old(self).item_capacity())
                    &&& final(self).state() == State::<T>::Streaming(true)
                },
                (State::Streaming(true), None, _) => {
                    &&& r == NextStep::<T, I>::AskItem
                    &&& final(self).state() == old(self).state()
                },
                (State::Streaming(true), Some(Poll::Pending), _) => {
                    &&& r == NextStep::<T, I>::Done(Poll::Pending)
                    &&& final(self).state() == old(self).state()
                },
                (State::Streaming(true), Some(Poll::Ready(Some(i))), _) => {
                    &&& r == NextStep::<T, I>::Done(Poll::Ready(Some(i)))
                    &&& final(self).state() == old(self).state()
                },
                (State::Streaming(true), Some(Poll::Ready(None)), Some(Poll::Ready(output))) => {
                    // There are no more items, and the thread has come back.
                    &&& r == NextStep::<T, I>::Done(Poll::Ready(None))
                    &&& final(self).state() == State::Idle(Some(output.value()))
                },
                (State::Streaming(true), Some(Poll::Ready(None)), task) => {
                    &&& r == (if task is Some {
                        NextStep::<T, I>::Done(Poll::Pending)
                    } else {
                        NextStep::AskThread
                    })
                    &&& final(self).state() == old(self).state()
                },
                (_, _, Some(Poll::Ready(output))) => {
                    // What was going on has stopped; an error of it goes unheard.
                    &&& r == NextStep::<T, I>::Start(output.value(), old(self).item_capacity())
                    &&& final(self).state() == State::<T>::Streaming(true)
                },
                (_, _, task) => {
                    &&& r == (if task is Some {
                        NextStep::<T, I>::Done(Poll::Pending)
                    } else {
                        NextStep::AskThread
                    })
                    &&& final(self).state() == stopping(old(self).state())
                },
            },
    {
        let streaming = match &self.state {
            State::Streaming(receiver) => *receiver,
            _ => false,
        };
        if streaming {
            return match item {
                None => NextStep::AskItem,
                Some(Poll::Pending) => NextStep::Done(Poll::Pending),
                Some(Poll::Ready(Some(i))) => NextStep::Done(Poll::Ready(Some(i))),
                Some(Poll::Ready(None)) => match task {
                    None => NextStep::AskThread,
                    Some(Poll::Pending) => NextStep::Done(Poll::Pending),
                    Some(Poll::Ready(output)) => match output {
                        Output::Value(io) => {
                            self.state = State::Idle(Some(io));
                            NextStep::Done(Poll::Ready(None))
                        },
                        _ => vstd::pervasive::unreached(),
                    },
                },
            };
        }
        match self.poll_stop(shared, task, &mut cx.woken) {
            Step::AskThread => return NextStep::AskThread,
            Step::Done(Poll::Pending) => return NextStep::Done(Poll::Pending),
            _ => {},
        }
        let cap: usize = match self.cap {
            Some(cap) => cap,
            None => DEFAULT_ITEMS,
        };
        let mut state = State::Streaming(true);
        core::mem::swap(&mut state, &mut self.state);
        match state {
            State::Idle(io) => NextStep::Start(io.unwrap(), cap),
            _ => vstd::pervasive::unreached(),
        }
    }

    /// How many items a stream holds.
    pub open spec fn item_capacity(&self) -> usize {
        match self.cap() {
            Some(cap) => cap,
            None => DEFAULT_ITEMS,
        }
    }
}

/// What a thread that fills a pipe is done with after a turn in which `res` came of filling it. It
/// goes on as long as bytes come.
pub fn filled(res: Result<usize, Error>) -> (r: Option<Result<(), Error>>)
    ensures
        match res {
            Ok(n) => if n == 0 {
                r == Some(Ok::<(), Error>(()))
            } else {
                r is None
            },
            Err(error) => r == Some(Err::<(), Error>(error)),
        },
{
    match res {
        Ok(n) => if n == 0 {
            Some(Ok(()))
        } else {
            None
        },
        Err(error) => Some(Err(error)),
    }
}

/// What a thread that drains a pipe does after a turn.
pub enum DrainStep {
    /// It goes on.
    Again,
    /// It flushes what it wrote to, and comes back with what came of that, unless there was this
    /// error before.
    Flush(Option<Error>),
}

/// What a thread that drains a pipe does after a turn in which `res` came of draining it. It goes
/// on as long as bytes come.
pub fn drained(res: Result<usize, Error>) -> (r: DrainStep)
    ensures
        r == (match res {
            Ok(n) => if n == 0 {
                DrainStep::Flush(None)
            } else {
                DrainStep::Again
            },
            Err(error) => DrainStep::Flush(Some(error)),
        }),
{
    match res {
        Ok(n) => if n == 0 {
            DrainStep::Flush(None)
        } else {
            DrainStep::Again
        },
        Err(error) => DrainStep::Flush(Some(error)),
    }
}

/// What a thread that drained a pipe comes back with, where `flush` came of flushing.
pub fn flushed(before: Option<Error>, flush: Result<(), Error>) -> (r: Result<(), Error>)
    ensures
        r == (match before {
            Some(error) => Err(error),
            None => flush,
        }),
{
    match before {
        Some(error) => Err(error),
        None => flush,
    }
}

/// What the caller of [`Unblock::poll_next`] is to do next.
pub enum NextStep<T, I> {
    /// It asks after the thread, and then calls again with what came of it.
    AskThread,
    /// It asks for the next item, and then calls again with what came of it.
    AskItem,
    /// It starts a thread that sends the items of the value, of which so many may wait, and then
    /// calls again.
    Start(T, usize),
    /// It is done.
    Done(Poll<Option<I>>),
}

/// A thread comes back with the value that it was handed, and with its error, if it had one.
pub proof fn law_comes_back<T>(value: T, error: Error, pos: SeekFrom, at: u64)
    ensures
        Output::Value(value).value() == value && Output::Value(value).error() is None,
        Output::Done(Ok(()), value).value() == value && Output::Done(Ok(()), value).error() is None,
        Output::Done(Err(error), value).value() == value && Output::Done(
            Err(error),
            value,
        ).error() == Some(error),
        Output::Sought(pos, Ok(at), value).value() == value && Output::Sought(
            pos,
            Ok(at),
            value,
        ).error() is None,
        Output::Sought(pos, Err(error), value).value() == value && Output::Sought(
            pos,
            Err(error),
            value,
        ).error() == Some(error),
{
}

/// Whatever is stopped has let go of its end: the pipe is closed with all that is in it, and whoever
/// waits at the other end is woken up, to find it closed. What is going on stays what it is, and a
/// value that is here stays here.
pub proof fn law_stopped<T>(state: State<T>, pipe: Pipe, after: Pipe)
    requires
        let_go_of(state, pipe, after),
    ensures
        !(stopping(state) matches State::Reading(Some(_))),
        !(stopping(state) matches State::Writing(Some(_))),
        !(stopping(state) matches State::Streaming(true)),
        state is Idle || state is WithMut || state is Seeking ==> stopping(state) == state,
        state is Reading <==> stopping(state) is Reading,
        state is Writing <==> stopping(state) is Writing,
        state is Streaming <==> stopping(state) is Streaming,
        (state matches State::Reading(Some(_))) || (state matches State::Writing(Some(_)))
            ==> after.closed(),
        after.content() == pipe.content(),
        after.capacity() == pipe.capacity(),
        state matches State::Reading(Some(_)) ==> {
            &&& pipe.writer() matches Some(waker) ==> freed(state, pipe) == seq![Wake::Task(waker)]
            &&& after.writer() is None
        },
        state matches State::Writing(Some(_)) ==> {
            &&& pipe.reader() matches Some(waker) ==> freed(state, pipe) == seq![Wake::Task(waker)]
            &&& after.reader() is None
        },
        !(state matches State::Reading(Some(_))) && !(state matches State::Writing(Some(_)))
            ==> after == pipe && freed(state, pipe) == Seq::<Wake>::empty(),
{
}

/// Bytes come out of the pipe in order, none lost and none doubled. A task that is told to wait is
/// woken up when there are some, or at once; the thread is asked after only where nothing is to be
/// had of a pipe that is closed, or nothing was asked for; and whoever waits for room is woken up
/// where there is some.
pub proof fn law_read_in_order<T>(
    reader: Reader,
    pipe: Pipe,
    cx: Context,
    buf: Seq<u8>,
    lot: usize,
    r: Asked<T, Writer>,
    pipe_after: Pipe,
    cx_after: Context,
    buf_after: Seq<u8>,
)
    requires
        reader.visible(&pipe) <= pipe.content().len(),
        buf.len() <= usize::MAX,
        pipe_read(reader, pipe, cx, buf, lot, r, pipe_after, cx_after, buf_after),
    ensures
        r matches Step::Done(Poll::Ready(res)) ==> (res matches Ok(n) && 0 < n <= buf.len()
            && buf_after.take(n as int) + pipe_after.content() == pipe.content() && buf_after.skip(
            n as int,
        ) == buf.skip(n as int) && (pipe.writer() matches Some(waker)
            ==> cx_after.woken@.contains(Wake::Task(waker)) && pipe_after.writer() is None)),
        !(r matches Step::Done(Poll::Ready(_))) ==> pipe_after.content() == pipe.content()
            && buf_after == buf && pipe_after.writer() == pipe.writer(),
        r matches Step::Done(Poll::Pending) ==> pipe_after.reader() == Some(cx.waker)
            || cx_after.woken@ == cx.woken@.push(Wake::Task(cx.waker)),
        r is AskThread ==> buf.len() == 0 || (pipe.closed() && reader.visible(&pipe) == 0),
        !(r is Start),
        pipe_after.closed() == pipe.closed(),
{
    assert(pipe.content().skip(0) =~= pipe.content());
    assert(pipe.content().take(0) + buf.skip(0) =~= buf);
    if let Step::Done(Poll::Ready(Ok(n))) = r {
        assert(buf_after.take(n as int) =~= pipe.content().take(n as int));
        assert(buf_after.skip(n as int) =~= buf.skip(n as int));
        assert(pipe.content().take(n as int) + pipe.content().skip(n as int) =~= pipe.content());
        if pipe.writer() is Some {
            let wake = Wake::Task(pipe.writer()->0);
            assert(wake_of(pipe.writer())[0] == wake);
            assert(cx_after.woken@[cx.woken@.len() as int] == wake);
        }
    }
}

/// Bytes go into the pipe in order, none lost and none doubled. A task that is told to wait is woken
/// up when there is room, or at once; nothing is written only to a pipe that is closed, or where
/// there was nothing to write; and whoever waits for bytes is woken up where there are some.
pub proof fn law_written_in_order<T>(
    writer: Writer,
    pipe: Pipe,
    cx: Context,
    buf: Seq<u8>,
    lot: usize,
    r: Asked<T, Reader>,
    pipe_after: Pipe,
    cx_after: Context,
)
    requires
        buf.len() <= usize::MAX,
        pipe_written(writer, pipe, cx, buf, lot, r, pipe_after, cx_after),
    ensures
        r is Done,
        r matches Step::Done(Poll::Ready(res)) ==> (res matches Ok(n) && n <= buf.len()
            && pipe_after.content() == pipe.content() + buf.take(n as int) && (n == 0
            ==> pipe.closed() || buf.len() == 0) && (pipe.reader() matches Some(waker) ==> n > 0
            ==> cx_after.woken@.contains(Wake::Task(waker)) && pipe_after.reader() is None)),
        r matches Step::Done(Poll::Pending) ==> {
            &&& pipe_after.content() == pipe.content()
            &&& pipe_after.writer() == Some(cx.waker) || cx_after.woken@ == cx.woken@.push(
                Wake::Task(cx.waker),
            )
            &&& !pipe.closed()
            &&& pipe_after.reader() == pipe.reader()
        },
        pipe_after.closed() == pipe.closed(),
        pipe.closed() ==> pipe_after.content() == pipe.content(),
{
    assert(buf.take(0) =~= Seq::empty());
    assert(pipe.content() + Seq::<u8>::empty() =~= pipe.content());
    if let Step::Done(Poll::Ready(Ok(n))) = r {
        if n > 0 && pipe.reader() is Some {
            let wake = Wake::Task(pipe.reader()->0);
            assert(wake_of(pipe.reader())[0] == wake);
            assert(cx_after.woken@[cx.woken@.len() as int] == wake);
        }
    }
}

} // verus!
