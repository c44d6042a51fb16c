//! Waiting with `kqueue`.

use vstd::prelude::*;
use crate::net::polling::{Event, NOTIFY_KEY};
use crate::task::Nanos;

verus! {

/// What a reported event is about.
#[derive(Clone, Copy, Debug, PartialEq, Eq, Structural)]
pub enum Filter {
    Read,
    Write,
    Other,
}

/// What to do about one direction of a socket.
#[derive(Clone, Copy, Debug, PartialEq, Eq, Structural)]
pub enum Change {
    /// Register it for one event.
    AddOneshot,
    /// Take the registration back.
    Delete,
}

/// The answer to a change: whether it says that there was an error, and which.
#[derive(Clone, Copy, Debug, PartialEq, Eq, Structural)]
pub struct Receipt {
    pub error: bool,
    pub data: i64,
}

/// What a reported event says. Where the other side has closed, writing will tell so.
pub fn from_kevent(key: usize, filter: Filter, eof: bool) -> (r: Event)
    ensures
        r == (Event {
            key,
            readable: filter is Read,
            writable: filter is Write || filter is Read && eof,
        }),
        // Whoever waits in the direction that is reported is told, and a writer of a closed end too.
        filter is Read ==> r.readable,
        filter is Write ==> r.writable,
        filter is Read && eof ==> r.writable,
        r.key == key,
{
    match filter {
        Filter::Read => Event { key, readable: true, writable: eof },
        Filter::Write => Event { key, readable: false, writable: true },
        Filter::Other => Event { key, readable: false, writable: false },
    }
}

/// The changes for reading and for writing that an interest calls for.
pub fn changes(ev: &Event) -> (r: (Change, Change))
    ensures
        (r.0 is AddOneshot) == ev.readable,
        (r.1 is AddOneshot) == ev.writable,
{
    let read = if ev.readable {
        Change::AddOneshot
    } else {
        Change::Delete
    };
    let write = if ev.writable {
        Change::AddOneshot
    } else {
        Change::Delete
    };
    (read, write)
}

/// A change of one direction of a socket.
#[derive(Clone, Copy, Debug, PartialEq, Eq, Structural)]
pub struct Registration {
    pub fd: i32,
    pub filter: Filter,
    pub change: Change,
    pub key: usize,
}

/// The changes that make the interest in a socket this one, the one for reading first.
pub open spec fn changelist_of(fd: i32, ev: Event) -> Seq<Registration> {
    seq![
        Registration {
            fd,
            filter: Filter::Read,
            change: if ev.readable {
                Change::AddOneshot
            } else {
                Change::Delete
            },
            key: ev.key,
        },
        Registration {
            fd,
            filter: Filter::Write,
            change: if ev.writable {
                Change::AddOneshot
            } else {
                Change::Delete
            },
            key: ev.key,
        },
    ]
}

/// The changes that make the interest in a socket this one.
pub fn changelist(fd: i32, ev: &Event) -> (r: Vec<Registration>)
    ensures
        r@ == changelist_of(fd, *ev),
{
    let (read, write) = changes(ev);
    let mut list: Vec<Registration> = Vec::new();
    list.push(Registration { fd, filter: Filter::Read, change: read, key: ev.key });
    list.push(Registration { fd, filter: Filter::Write, change: write, key: ev.key });
    list
}

/// The changes that let go of a socket.
pub fn letting_go(fd: i32) -> (r: Vec<Registration>)
    ensures
        r@ == changelist_of(fd, (Event { key: 0, readable: false, writable: false })),
{
    changelist(fd, &Event::none(0))
}

/// Whether a receipt tells of an error that matters: not that there was no registration, nor that
/// the other side has closed.
pub open spec fn matters(receipt: Receipt, no_entry: i64, broken_pipe: i64) -> bool {
    receipt.error && receipt.data != 0 && receipt.data != no_entry && receipt.data != broken_pipe
}

/// The first error that matters among the receipts.
pub fn check_receipts(receipts: &Vec<Receipt>, no_entry: i64, broken_pipe: i64) -> (r: Option<i64>)
    ensures
        match r {
            Some(error) => exists|i: int|
                {
                    &&& 0 <= i < receipts@.len()
                    &&& #[trigger] matters(receipts@[i], no_entry, broken_pipe)
                    &&& error == receipts@[i].data
                    &&& forall|j: int|
                        0 <= j < i ==> !#[trigger] matters(receipts@[j], no_entry, broken_pipe)
                },
            None => forall|i: int|
                0 <= i < receipts@.len() ==> !#[trigger] matters(
                    receipts@[i],
                    no_entry,
                    broken_pipe,
                ),
        },
{
    let mut i: usize = 0;
    while i < receipts.len()
        invariant
            i <= receipts@.len(),
            forall|j: int|
                0 <= j < i ==> !#[trigger] matters(receipts@[j], no_entry, broken_pipe),
        decreases receipts@.len() - i,
    {
        let receipt: Receipt = receipts[i];
        if receipt.error && receipt.data != 0 && receipt.data != no_entry && receipt.data
            != broken_pipe {
            assert(matters(receipts@[i as int], no_entry, broken_pipe));
            return Some(receipt.data);
        }
        i = i + 1;
    }
    None
}

/// What came of making changes: the error of the system, or the first error that matters among the
/// receipts.
pub fn modified(
    res: Result<(), i32>,
    receipts: &Vec<Receipt>,
    no_entry: i64,
    broken_pipe: i64,
) -> (r: Result<(), i64>)
    ensures
        match (res, r) {
            (Err(error), r) => r == Err::<(), i64>(error as i64),
            (Ok(_), Err(error)) => exists|i: int|
                {
                    &&& 0 <= i < receipts@.len()
                    &&& #[trigger] matters(receipts@[i], no_entry, broken_pipe)
                    &&& error == receipts@[i].data
                    &&& forall|j: int|
                        0 <= j < i ==> !#[trigger] matters(receipts@[j], no_entry, broken_pipe)
                },
            (Ok(_), Ok(_)) => forall|i: int|
                0 <= i < receipts@.len() ==> !#[trigger] matters(
                    receipts@[i],
                    no_entry,
                    broken_pipe,
                ),
        },
{
    if let Err(error) = res {
        return Err(error as i64);
    }
    match check_receipts(receipts, no_entry, broken_pipe) {
        Some(error) => Err(error),
        None => Ok(()),
    }
}

/// A call that sets up a poller.
#[derive(Clone, Copy, Debug, PartialEq, Eq, Structural)]
pub enum SetupCall {
    /// Create the queue of events.
    Queue,
    /// Have it closed when another program is run.
    CloseOnExec(i32),
    /// Create two streams that are connected: the first is read, and the second is written to
    /// interrupt a wait.
    Pair,
    /// Let the stream that is read not block.
    NonBlockingRead(i32),
    /// Let the stream that is written not block.
    NonBlockingWrite(i32),
    /// Make the interest in a stream this one.
    Modify(i32, Event),
    /// The poller is ready.
    Ready,
    /// It failed with this error of the system.
    Failed(i32),
}

/// How far the setup of a poller has come.
#[derive(Clone, Copy, Debug, PartialEq, Eq, Structural)]
pub struct Setup {
    pub call: SetupCall,
    pub kqueue_fd: i32,
    pub read_fd: i32,
    pub write_fd: i32,
}

/// The setup after a call of which this came.
pub open spec fn set_up(setup: Setup, res: Result<(i32, i32), i32>) -> Setup {
    match (setup.call, res) {
        (_, Err(error)) => Setup { call: SetupCall::Failed(error), ..setup },
        (SetupCall::Queue, Ok(fds)) => Setup {
            call: SetupCall::CloseOnExec(fds.0),
            kqueue_fd: fds.0,
            ..setup
        },
        (SetupCall::CloseOnExec(_), Ok(_)) => Setup { call: SetupCall::Pair, ..setup },
        (SetupCall::Pair, Ok(fds)) => Setup {
            call: SetupCall::NonBlockingRead(fds.0),
            read_fd: fds.0,
            write_fd: fds.1,
            ..setup
        },
        (SetupCall::NonBlockingRead(_), Ok(_)) => Setup {
            call: SetupCall::NonBlockingWrite(setup.write_fd),
            ..setup
        },
        (SetupCall::NonBlockingWrite(_), Ok(_)) => Setup {
            call: SetupCall::Modify(
                setup.read_fd,
                Event { key: NOTIFY_KEY, readable: true, writable: false },
            ),
            ..setup
        },
        (_, Ok(_)) => Setup { call: SetupCall::Ready, ..setup },
    }
}

impl Setup {
    pub fn new() -> (r: Self)
        ensures
            r.call is Queue,
            r.kqueue_fd == -1,
            r.read_fd == -1,
            r.write_fd == -1,
    {
        Setup { call: SetupCall::Queue, kqueue_fd: -1, read_fd: -1, write_fd: -1 }
    }

    /// Notes what came of the call: two numbers, where there is one the second does not matter, or
    /// an error of the system.
    pub fn done(&mut self, res: Result<(i32, i32), i32>)
        requires
            !(old(self).call is Ready),
            !(old(self).call is Failed),
        ensures
            *final(self) == set_up(*old(self), res),
    {
        self.call = match (self.call, res) {
            (_, Err(error)) => SetupCall::Failed(error),
            (SetupCall::Queue, Ok(fds)) => {
                self.kqueue_fd = fds.0;
                SetupCall::CloseOnExec(fds.0)
            },
            (SetupCall::CloseOnExec(_), Ok(_)) => SetupCall::Pair,
            (SetupCall::Pair, Ok(fds)) => {
                self.read_fd = fds.0;
                self.write_fd = fds.1;
                SetupCall::NonBlockingRead(fds.0)
            },
            (SetupCall::NonBlockingRead(_), Ok(_)) => SetupCall::NonBlockingWrite(self.write_fd),
            (SetupCall::NonBlockingWrite(_), Ok(_)) => SetupCall::Modify(
                self.read_fd,
                Event::readable(NOTIFY_KEY),
            ),
            (_, Ok(_)) => SetupCall::Ready,
        };
    }
}

/// A call that is part of a wait.
#[derive(Clone, Copy, Debug, PartialEq, Eq)]
pub enum WaitCall {
    /// Wait, for so many seconds and nanoseconds if they are there, and otherwise for ever.
    Wait(Option<(u128, u32)>),
    /// Read from what interrupts waits.
    Drain(i32),
    /// Make the interest in it this one.
    Modify(i32, Event),
    /// So many events were reported.
    Ready(i32),
    /// The wait failed with this error of the system.
    Failed(i32),
}

/// How far a wait has come.
#[derive(Clone, Copy, Debug, PartialEq, Eq)]
pub struct Wait {
    pub call: WaitCall,
    pub read_fd: i32,
    /// How many events were reported, once the system has waited.
    pub happened: i32,
}

/// The wait after a call of which this came: what interrupts waits is read until nothing is left.
pub open spec fn stepped(wait: Wait, res: Result<i32, i32>) -> Wait {
    match (wait.call, res) {
        (WaitCall::Drain(fd), Ok(_)) => wait,
        (WaitCall::Drain(fd), Err(_)) => Wait {
            call: WaitCall::Modify(fd, Event { key: NOTIFY_KEY, readable: true, writable: false }),
            ..wait
        },
        (_, Err(error)) => Wait { call: WaitCall::Failed(error), ..wait },
        (WaitCall::Wait(_), Ok(n)) => Wait {
            call: WaitCall::Drain(wait.read_fd),
            happened: n,
            ..wait
        },
        (_, Ok(_)) => Wait { call: WaitCall::Ready(wait.happened), ..wait },
    }
}

impl Wait {
    /// Begins a wait of this length at most.
    pub fn new(poller: &Setup, timeout: Option<Nanos>) -> (r: Self)
        ensures
            r.read_fd == poller.read_fd,
            r.happened == 0,
            match timeout {
                Some(t) => {
                    &&& r.call matches WaitCall::Wait(Some(spec))
                    &&& spec.1 < 1_000_000_000
                    &&& spec.0 * 1_000_000_000 + spec.1 == t
                },
                None => r.call == WaitCall::Wait(None),
            },
    {
        let spec = match timeout {
            Some(t) => Some((t / 1_000_000_000, (t % 1_000_000_000) as u32)),
            None => None,
        };
        Wait { call: WaitCall::Wait(spec), read_fd: poller.read_fd, happened: 0 }
    }

    /// Notes what came of the call: a number, or an error of the system.
    pub fn done(&mut self, res: Result<i32, i32>)
        requires
            !(old(self).call is Ready),
            !(old(self).call is Failed),
        ensures
            *final(self) == stepped(*old(self), res),
    {
        self.call = match (self.call, res) {
            (WaitCall::Drain(fd), Ok(_)) => WaitCall::Drain(fd),
            (WaitCall::Drain(fd), Err(_)) => WaitCall::Modify(fd, Event::readable(NOTIFY_KEY)),
            (_, Err(error)) => WaitCall::Failed(error),
            (WaitCall::Wait(_), Ok(n)) => {
                self.happened = n;
                WaitCall::Drain(self.read_fd)
            },
            (_, Ok(_)) => WaitCall::Ready(self.happened),
        };
    }
}

/// Both directions of a socket are changed, each to what the interest says of it, whatever the other
/// is, and nothing else is.
pub proof fn law_changes_cover(fd: i32, ev: Event)
    ensures
        changelist_of(fd, ev).len() == 2,
        forall|i: int|
            0 <= i < 2 ==> (#[trigger] changelist_of(fd, ev)[i]).fd == fd && changelist_of(
                fd,
                ev,
            )[i].key == ev.key,
        exists|i: int|
            0 <= i < 2 && (#[trigger] changelist_of(fd, ev)[i]).filter is Read && (changelist_of(
                fd,
                ev,
            )[i].change is AddOneshot <==> ev.readable),
        exists|i: int|
            0 <= i < 2 && (#[trigger] changelist_of(fd, ev)[i]).filter is Write && (changelist_of(
                fd,
                ev,
            )[i].change is AddOneshot <==> ev.writable),
{
    let list = changelist_of(fd, ev);
    assert(list[0].filter is Read);
    assert(list[1].filter is Write);
}

/// A poller is ready once it is closed for other programs, both streams do not block, and the one
/// that is read is listened to; and it fails only if a call failed.
pub proof fn law_set_up(
    setup: Setup,
    queue: (i32, i32),
    a: (i32, i32),
    pair: (i32, i32),
    b: (i32, i32),
    c: (i32, i32),
    d: (i32, i32),
)
    requires
        setup.call is Queue,
    ensures
        ({
            let s1 = set_up(setup, Ok(queue));
            let s2 = set_up(s1, Ok(a));
            let s3 = set_up(s2, Ok(pair));
            let s4 = set_up(s3, Ok(b));
            let s5 = set_up(s4, Ok(c));
            let s6 = set_up(s5, Ok(d));
            &&& s1.call == SetupCall::CloseOnExec(queue.0)
            &&& s2.call is Pair
            &&& s3.call == SetupCall::NonBlockingRead(pair.0)
            &&& s4.call == SetupCall::NonBlockingWrite(pair.1)
            &&& s5.call == SetupCall::Modify(
                pair.0,
                Event { key: NOTIFY_KEY, readable: true, writable: false },
            )
            &&& s6.call is Ready
            &&& s6.kqueue_fd == queue.0
            &&& s6.read_fd == pair.0
            &&& s6.write_fd == pair.1
        }),
        forall|s: Setup, res: Result<(i32, i32), i32>| (#[trigger] set_up(s, res)).call
            matches SetupCall::Failed(e) && !(s.call is Failed) ==> res == Err::<
            (i32, i32),
            i32,
        >(set_up(s, res).call->Failed_0),
        forall|s: Setup, e: i32| #[trigger] set_up(s, Err(e)).call == SetupCall::Failed(e),
{
}

/// A wait tells how many events the system reported, once what interrupts waits is read until nothing
/// is left and is listened to again; and it fails only if waiting or listening again failed.
pub proof fn law_listens_again(wait: Wait, n: i32, read: i32, e: i32, m: i32)
    requires
        wait.call is Wait,
    ensures
        ({
            let waited = stepped(wait, Ok(n));
            let read_some = stepped(waited, Ok(read));
            let read_all = stepped(read_some, Err(e));
            let ended = stepped(read_all, Ok(m));
            &&& waited.call == WaitCall::Drain(wait.read_fd)
            &&& read_some.call == waited.call
            &&& read_all.call == WaitCall::Modify(
                wait.read_fd,
                Event { key: NOTIFY_KEY, readable: true, writable: false },
            )
            &&& ended.call == WaitCall::Ready(n)
            &&& stepped(wait, Err(e)).call == WaitCall::Failed(e)
            &&& stepped(read_all, Err(e)).call == WaitCall::Failed(e)
        }),
{
}

/// A receipt tells of an error only if it says so and the error is one: neither none at all, nor that
/// there was nothing to take out, nor that the other side has closed.
pub proof fn law_what_matters(receipt: Receipt, no_entry: i64, broken_pipe: i64)
    ensures
        !receipt.error || receipt.data == 0 ==> !matters(receipt, no_entry, broken_pipe),
        receipt.data == no_entry || receipt.data == broken_pipe ==> !matters(
            receipt,
            no_entry,
            broken_pipe,
        ),
        receipt.error && receipt.data != 0 && receipt.data != no_entry && receipt.data != broken_pipe
            ==> matters(receipt, no_entry, broken_pipe),
{
}

} // verus!
