//! Connecting a socket without waiting for it.

use vstd::prelude::*;
use crate::io::error::{Error, ErrorKind};

verus! {

/// What depends on the system.
#[derive(Clone, Copy, Debug, PartialEq, Eq, Structural)]
pub struct Platform {
    /// A socket can be made such that it is closed when another program is run.
    pub cloexec: bool,
    /// A socket has to be told not to send a signal when the other side has closed.
    pub no_sigpipe: bool,
    /// The error that says that the connection is being made.
    pub in_progress: i32,
    /// The error that says that the call would block.
    pub would_block: i32,
}

/// A call on the way to a connection.
#[derive(Clone, Copy, Debug, PartialEq, Eq, Structural)]
pub enum ConnectCall {
    /// Make a socket.
    Socket,
    /// Ask for the flags of the descriptor.
    GetFd(i32),
    /// Set the flags of the descriptor: these, and to close it when another program is run.
    SetFd(i32, i32),
    /// Tell the socket not to send a signal.
    NoSigPipe(i32),
    /// Ask for the flags of the socket.
    GetFl(i32),
    /// Set the flags of the socket: these, and not to block.
    SetFl(i32, i32),
    /// Connect the socket.
    Connect(i32),
    /// The socket is connected or is being connected.
    Connected(i32),
    /// It failed with this error of the system; a socket that was made is to be closed.
    Failed(i32, Option<i32>),
}

impl ConnectCall {
    /// The socket that was made.
    pub open spec fn socket(self) -> Option<i32> {
        match self {
            ConnectCall::Socket => None,
            ConnectCall::GetFd(fd) => Some(fd),
            ConnectCall::SetFd(fd, _) => Some(fd),
            ConnectCall::NoSigPipe(fd) => Some(fd),
            ConnectCall::GetFl(fd) => Some(fd),
            ConnectCall::SetFl(fd, _) => Some(fd),
            ConnectCall::Connect(fd) => Some(fd),
            ConnectCall::Connected(fd) => Some(fd),
            ConnectCall::Failed(_, fd) => fd,
        }
    }

    pub open spec fn ended(self) -> bool {
        self is Connected || self is Failed
    }
}

/// The call that comes after `call`.
pub open spec fn after_call(call: ConnectCall, res: Result<i32, i32>, platform: Platform) -> ConnectCall {
    match (call, res) {
        (ConnectCall::Socket, Ok(fd)) => if platform.cloexec {
            ConnectCall::GetFl(fd)
        } else {
            ConnectCall::GetFd(fd)
        },
        (ConnectCall::GetFd(fd), Ok(flags)) => ConnectCall::SetFd(fd, flags),
        (ConnectCall::SetFd(fd, _), Ok(_)) => if platform.no_sigpipe {
            ConnectCall::NoSigPipe(fd)
        } else {
            ConnectCall::GetFl(fd)
        },
        (ConnectCall::NoSigPipe(fd), Ok(_)) => ConnectCall::GetFl(fd),
        (ConnectCall::GetFl(fd), Ok(flags)) => ConnectCall::SetFl(fd, flags),
        (ConnectCall::SetFl(fd, _), Ok(_)) => ConnectCall::Connect(fd),
        (ConnectCall::Connect(fd), Ok(_)) => ConnectCall::Connected(fd),
        (ConnectCall::Connect(fd), Err(error)) => if error == platform.in_progress || error
            == platform.would_block {
            ConnectCall::Connected(fd)
        } else {
            ConnectCall::Failed(error, Some(fd))
        },
        (call, Err(error)) => ConnectCall::Failed(error, call.socket()),
        (call, _) => call,
    }
}

/// Says which call comes after `call`, of which `res` came.
pub fn connect(call: ConnectCall, res: Result<i32, i32>, platform: &Platform) -> (r: ConnectCall)
    requires
        !call.ended(),
    ensures
        r == after_call(call, res, *platform),
        // It fails only because a call failed, and with the error of that call.
        r matches ConnectCall::Failed(error, fd) ==> res == Err::<i32, i32>(error) && fd
            == call.socket(),
        // A connection that is made at once or is being made is one.
        call matches ConnectCall::Connect(fd) ==> ((r == ConnectCall::Connected(fd)) <==> (res is Ok
            || res == Err::<i32, i32>(platform.in_progress) || res == Err::<i32, i32>(
            platform.would_block,
        ))),
        // No other call may fail, and no other call ends with a connection.
        !(call is Connect) ==> (r is Failed <==> res is Err),
        !(call is Connect) ==> !(r is Connected),
{
    match (call, res) {
        (ConnectCall::Socket, Ok(fd)) => if platform.cloexec {
            ConnectCall::GetFl(fd)
        } else {
            ConnectCall::GetFd(fd)
        },
        (ConnectCall::Socket, Err(error)) => ConnectCall::Failed(error, None),
        (ConnectCall::GetFd(fd), Ok(flags)) => ConnectCall::SetFd(fd, flags),
        (ConnectCall::GetFd(fd), Err(error)) => ConnectCall::Failed(error, Some(fd)),
        (ConnectCall::SetFd(fd, _), Ok(_)) => if platform.no_sigpipe {
            ConnectCall::NoSigPipe(fd)
        } else {
            ConnectCall::GetFl(fd)
        },
        (ConnectCall::SetFd(fd, _), Err(error)) => ConnectCall::Failed(error, Some(fd)),
        (ConnectCall::NoSigPipe(fd), Ok(_)) => ConnectCall::GetFl(fd),
        (ConnectCall::NoSigPipe(fd), Err(error)) => ConnectCall::Failed(error, Some(fd)),
        (ConnectCall::GetFl(fd), Ok(flags)) => ConnectCall::SetFl(fd, flags),
        (ConnectCall::GetFl(fd), Err(error)) => ConnectCall::Failed(error, Some(fd)),
        (ConnectCall::SetFl(fd, _), Ok(_)) => ConnectCall::Connect(fd),
        (ConnectCall::SetFl(fd, _), Err(error)) => ConnectCall::Failed(error, Some(fd)),
        (ConnectCall::Connect(fd), Ok(_)) => ConnectCall::Connected(fd),
        (ConnectCall::Connect(fd), Err(error)) => if error == platform.in_progress || error
            == platform.would_block {
            ConnectCall::Connected(fd)
        } else {
            ConnectCall::Failed(error, Some(fd))
        },
        (ConnectCall::Connected(fd), _) => ConnectCall::Connected(fd),
        (ConnectCall::Failed(error, fd), _) => ConnectCall::Failed(error, fd),
    }
}

/// No socket leaks: whatever fails, a socket that was made is handed on to be closed.
pub proof fn law_no_leak(call: ConnectCall, res: Result<i32, i32>, platform: Platform)
    requires
        !call.ended(),
    ensures
        !(call is Socket) ==> after_call(call, res, platform).socket() == call.socket(),
        call is Socket && res is Err ==> after_call(call, res, platform).socket() is None,
        call is Socket && res is Ok ==> after_call(call, res, platform).socket() == Some(res->Ok_0),
{
}

/// A connection fails only if a call failed, with the error of that call; and every call must
/// succeed, except that a connection may still be in the making.
pub proof fn law_fails_only_by_a_call(call: ConnectCall, res: Result<i32, i32>, platform: Platform)
    requires
        !call.ended(),
    ensures
        res is Ok ==> !(after_call(call, res, platform) is Failed),
        after_call(call, res, platform) matches ConnectCall::Failed(error, _) ==> res == Err::<
            i32,
            i32,
        >(error),
        res matches Err(error) && !(after_call(call, res, platform) is Failed) ==> call is Connect && (
        res->Err_0 == platform.in_progress || res->Err_0 == platform.would_block),
        call matches ConnectCall::Connect(fd) ==> (after_call(call, res, platform)
            == ConnectCall::Connected(fd) <==> (res is Ok || res->Err_0 == platform.in_progress
            || res->Err_0 == platform.would_block)),
{
}

/// What goes before each call: a socket is connected only once it does not block, its flags are set
/// to those that were asked for, and it is kept from other programs, and from sending a signal where
/// the system needs that, before anything else is done to it.
pub proof fn law_what_goes_before(call: ConnectCall, res: Result<i32, i32>, platform: Platform)
    requires
        !call.ended(),
    ensures
        ({
            let next = after_call(call, res, platform);
            &&& next is Connected ==> call is Connect
            &&& next is Connect ==> call is SetFl && res is Ok
            &&& next matches ConnectCall::SetFl(fd, flags) ==> call == ConnectCall::GetFl(fd) && res
                == Ok::<i32, i32>(flags)
            &&& next matches ConnectCall::SetFd(fd, flags) ==> call == ConnectCall::GetFd(fd) && res
                == Ok::<i32, i32>(flags)
            &&& next is NoSigPipe ==> call is SetFd && platform.no_sigpipe
            &&& next is GetFd ==> call is Socket && !platform.cloexec
            &&& next is GetFl && call is Socket ==> platform.cloexec
            &&& next is GetFl && call is SetFd ==> !platform.no_sigpipe
            &&& next is GetFl ==> call is Socket || call is SetFd || call is NoSigPipe
            &&& !(next is Socket)
        }),
{
}

/// How many calls there are at most until it ends.
pub open spec fn calls_left(call: ConnectCall) -> nat {
    match call {
        ConnectCall::Socket => 7,
        ConnectCall::GetFd(_) => 6,
        ConnectCall::SetFd(..) => 5,
        ConnectCall::NoSigPipe(_) => 4,
        ConnectCall::GetFl(_) => 3,
        ConnectCall::SetFl(..) => 2,
        ConnectCall::Connect(_) => 1,
        _ => 0,
    }
}

/// Where the calls lead of which `results` came, one after the other.
pub open spec fn way(results: Seq<Result<i32, i32>>, platform: Platform) -> ConnectCall
    decreases results.len(),
{
    if results.len() == 0 {
        ConnectCall::Socket
    } else {
        let before = way(results.drop_last(), platform);
        if before.ended() {
            before
        } else {
            after_call(before, results.last(), platform)
        }
    }
}

proof fn lemma_way(fd: i32, results: Seq<Result<i32, i32>>, platform: Platform)
    requires
        results.len() > 0,
        results[0] == Ok::<i32, i32>(fd),
        forall|i: int| 0 <= i < results.len() ==> (#[trigger] results[i]) is Ok,
    ensures
        way(results, platform).socket() == Some(fd),
        !(way(results, platform) is Failed),
        !(way(results, platform) is Socket),
        way(results, platform).ended() || calls_left(way(results, platform)) + results.len() <= 7,
    decreases results.len(),
{
    let before = results.drop_last();
    if before.len() > 0 {
        lemma_way(fd, before, platform);
        assert(results[results.len() - 1] is Ok);
    } else {
        assert(way(before, platform) is Socket);
        assert(results.last() == results[0]);
    }
}

/// If no call fails, the socket that was made is handed out, after seven calls at most.
pub proof fn law_connects(fd: i32, results: Seq<Result<i32, i32>>, platform: Platform)
    requires
        results.len() >= 7,
        results[0] == Ok::<i32, i32>(fd),
        forall|i: int| 0 <= i < results.len() ==> (#[trigger] results[i]) is Ok,
    ensures
        way(results, platform) == ConnectCall::Connected(fd),
{
    lemma_way(fd, results, platform);
}

/// A path as the address of a socket in the file system: its bytes, filled up with zeros, and how
/// many bytes the address takes.
pub struct UnixAddr {
    pub path: Vec<u8>,
    pub len: usize,
}

/// A name that begins with a zero is not in the file system.
pub open spec fn is_abstract(path: Seq<u8>) -> bool {
    path.len() > 0 && path[0] == 0
}

/// The address for `path`, where an address has room for `room` bytes of it, `offset` bytes from its
/// start.
pub fn unix_addr(path: &[u8], room: usize, offset: usize) -> (r: Result<UnixAddr, Error>)
    requires
        offset + room < usize::MAX,
    ensures
        (r is Ok) == (path@.len() < room || path@.len() == room && is_abstract(path@)),
        r matches Ok(addr) ==> {
            &&& addr.path@ == path@ + Seq::new((room - path@.len()) as nat, |i: int| 0u8)
            &&& addr.len == offset + path@.len() + (if path@.len() == 0 || is_abstract(path@) {
                0int
            } else {
                1
            })
        },
        r matches Err(error) ==> error.says(
            ErrorKind::InvalidInput,
            if is_abstract(path@) {
                "path must be no longer than SUN_LEN"@
            } else {
                "path must be shorter than SUN_LEN"@
            },
        ),
{
    let hidden = path.len() > 0 && path[0] == 0;
    if hidden && path.len() > room {
        return Err(Error::new(ErrorKind::InvalidInput, "path must be no longer than SUN_LEN"));
    }
    if !hidden && path.len() >= room {
        return Err(Error::new(ErrorKind::InvalidInput, "path must be shorter than SUN_LEN"));
    }
    let mut bytes: Vec<u8> = Vec::new();
    bytes.extend_from_slice(path);
    assert(bytes@ =~= path@);
    bytes.resize(room, 0);
    assert(bytes@ =~= path@ + Seq::new((room - path@.len()) as nat, |i: int| 0u8));
    let mut len: usize = offset + path.len();
    if path.len() > 0 && !hidden {
        len = len + 1;
    }
    Ok(UnixAddr { path: bytes, len })
}

/// A call on the way to a connection, on a system whose calls say in their own ways that they
/// failed.
#[derive(Clone, Copy, Debug, PartialEq, Eq, Structural)]
pub enum WindowsCall {
    /// Make a socket.
    Socket,
    /// Keep the socket from programs that are run.
    Inherit,
    /// Keep the socket from blocking.
    NonBlocking,
    /// Connect the socket.
    Connect,
    /// The socket is connected or is being connected.
    Connected,
    /// It failed.
    Failed,
}

/// The call that comes after `call`.
pub open spec fn after_windows_call(
    call: WindowsCall,
    res: u64,
    invalid: u64,
    would_block: bool,
) -> WindowsCall {
    match call {
        WindowsCall::Socket => if res == invalid {
            WindowsCall::Failed
        } else {
            WindowsCall::Inherit
        },
        WindowsCall::Inherit => if res == 0 {
            WindowsCall::Failed
        } else {
            WindowsCall::NonBlocking
        },
        WindowsCall::NonBlocking => if res != 0 {
            WindowsCall::Failed
        } else {
            WindowsCall::Connect
        },
        WindowsCall::Connect => if res == 0 || would_block {
            WindowsCall::Connected
        } else {
            WindowsCall::Failed
        },
        call => call,
    }
}

/// Says which call comes after `call`. Making a socket failed if it gave `invalid`; keeping it from
/// programs failed if it gave zero; the others failed if they did not give zero. A connection that
/// would block is being made.
pub fn tcp_connect(call: WindowsCall, res: u64, invalid: u64, would_block: bool) -> (r: WindowsCall)
    ensures
        r == after_windows_call(call, res, invalid, would_block),
        // Each call fails as it says, and only then.
        r is Failed && !(call is Failed) <==> {
            ||| call is Socket && res == invalid
            ||| call is Inherit && res == 0
            ||| call is NonBlocking && res != 0
            ||| call is Connect && res != 0 && !would_block
        },
        r is Connected && !(call is Connected) <==> call is Connect && (res == 0 || would_block),
        r is Connect ==> call is NonBlocking,
        r is NonBlocking ==> call is Inherit,
        r is Inherit ==> call is Socket,
        !(r is Socket),
{
    match call {
        WindowsCall::Socket => if res == invalid {
            WindowsCall::Failed
        } else {
            WindowsCall::Inherit
        },
        WindowsCall::Inherit => if res == 0 {
            WindowsCall::Failed
        } else {
            WindowsCall::NonBlocking
        },
        WindowsCall::NonBlocking => if res != 0 {
            WindowsCall::Failed
        } else {
            WindowsCall::Connect
        },
        WindowsCall::Connect => if res == 0 || would_block {
            WindowsCall::Connected
        } else {
            WindowsCall::Failed
        },
        WindowsCall::Connected => WindowsCall::Connected,
        WindowsCall::Failed => WindowsCall::Failed,
    }
}

/// On the other system, too, a connection fails only if a call failed, each of which says so in its
/// own way, and is made by all calls in their order.
pub proof fn law_windows_calls(call: WindowsCall, res: u64, invalid: u64, would_block: bool)
    requires
        !(call is Connected),
        !(call is Failed),
    ensures
        ({
            let next = after_windows_call(call, res, invalid, would_block);
            let failed = match call {
                WindowsCall::Socket => res == invalid,
                WindowsCall::Inherit => res == 0,
                WindowsCall::NonBlocking => res != 0,
                _ => res != 0 && !would_block,
            };
            &&& next is Failed <==> failed
            &&& call is Socket && !failed ==> next is Inherit
            &&& next is NonBlocking ==> call is Inherit
            &&& next is Connect ==> call is NonBlocking
            &&& next is Connected ==> call is Connect
            &&& call is Connect && (res == 0 || would_block) ==> next is Connected
            &&& next != call
        }),
{
}

} // verus!
