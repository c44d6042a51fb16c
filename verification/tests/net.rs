use cynthia::future::future::{ready, Future, Ready};
use cynthia::io::{Error, ErrorKind};
use cynthia::net::attempts::{Attempts, Purpose};
use cynthia::net::connect::{
    connect, tcp_connect, unix_addr, ConnectCall, Platform, WindowsCall,
};
use cynthia::net::polling::epoll::{self, from_epoll, interest_flags, timer_spec, Setup, SetupCall};
use cynthia::net::polling::kqueue::{
    self, changelist, changes, check_receipts, from_kevent, letting_go, modified, Change, Filter,
    Receipt, Registration,
};
use cynthia::net::polling::wepoll::{self, has_ended};
use cynthia::net::polling::{Event, Poller, NOTIFY_KEY};
use cynthia::net::transport::addr::{
    first_addr, host_addrs, AsyncToSocketAddrs, IpAddr, Ipv4Addr, Ipv6Addr, SocketAddr,
    SocketAddrFuture, SocketAddrV4, SocketAddrV6,
};
use cynthia::task::{Context, Poll, Waker};

#[test]
fn flags_are_those_of_the_system() {
    assert_eq!(
        interest_flags(&Event::readable(1)),
        libc::EPOLLONESHOT
            | libc::EPOLLIN
            | libc::EPOLLRDHUP
            | libc::EPOLLHUP
            | libc::EPOLLERR
            | libc::EPOLLPRI
    );
    assert_eq!(
        interest_flags(&Event::writable(1)),
        libc::EPOLLONESHOT | libc::EPOLLOUT | libc::EPOLLHUP | libc::EPOLLERR
    );
    assert_eq!(interest_flags(&Event::none(1)), libc::EPOLLONESHOT);
}

#[test]
fn errors_reach_readers_and_writers() {
    assert_eq!(from_epoll(3, libc::EPOLLERR), Event::all(3));
    assert_eq!(from_epoll(3, libc::EPOLLHUP), Event::all(3));
    assert_eq!(from_epoll(3, libc::EPOLLIN), Event::readable(3));
    assert_eq!(from_epoll(3, libc::EPOLLRDHUP), Event::readable(3));
    assert_eq!(from_epoll(3, libc::EPOLLOUT), Event::writable(3));
    assert_eq!(from_epoll(3, 0), Event::none(3));
}

#[test]
fn wait_is_not_cut_short() {
    assert_eq!(epoll::timeout_ms(false, None), -1);
    assert_eq!(epoll::timeout_ms(false, Some(0)), 0);
    assert_eq!(epoll::timeout_ms(true, Some(0)), 0);
    assert_eq!(epoll::timeout_ms(true, Some(5)), -1);
    assert_eq!(epoll::timeout_ms(false, Some(1)), 1);
    assert_eq!(epoll::timeout_ms(false, Some(1_000_000)), 1);
    assert_eq!(epoll::timeout_ms(false, Some(1_000_001)), 2);
    assert_eq!(epoll::timeout_ms(false, Some(u128::MAX)), i32::MAX);
    assert_eq!(timer_spec(None), (0, 0));
    assert_eq!(timer_spec(Some(2_500_000_000)), (2, 500_000_000));
    assert_eq!(wepoll::timeout_ms(None, 7), -1);
    assert_eq!(wepoll::timeout_ms(Some(5), 7), 0);
    assert_eq!(wepoll::timeout_ms(Some(1_500_000), 0), 2);
    assert_eq!(wepoll::timeout_ms(Some(u128::MAX), 0), i32::MAX);
    assert!(has_ended(true, 0, 5));
    assert!(has_ended(false, 1, 5));
    assert!(has_ended(false, 0, 0));
    assert!(!has_ended(false, 0, -1));
}

fn run(setup: &mut Setup, results: &[Result<i32, i32>]) {
    for res in results {
        setup.done(*res, libc::ENOSYS);
    }
}

#[test]
fn poller_is_set_up() {
    let mut setup = Setup::new();
    assert_eq!(setup.next(), SetupCall::Create1);
    run(&mut setup, &[Ok(3)]);
    assert_eq!(setup.next(), SetupCall::EventFd);
    run(&mut setup, &[Ok(4)]);
    assert_eq!(setup.next(), SetupCall::TimerFd);
    run(&mut setup, &[Ok(5)]);
    assert_eq!(setup.next(), SetupCall::Add(5, Event::none(NOTIFY_KEY)));
    run(&mut setup, &[Ok(0)]);
    assert_eq!(setup.next(), SetupCall::Add(4, Event::readable(NOTIFY_KEY)));
    run(&mut setup, &[Ok(0)]);
    assert_eq!(setup.next(), SetupCall::Ready);
    assert_eq!((setup.epoll_fd, setup.event_fd, setup.timer_fd), (3, 4, Some(5)));
}

#[test]
fn poller_is_set_up_in_the_old_way() {
    let mut setup = Setup::new();
    run(&mut setup, &[Err(libc::ENOSYS)]);
    assert_eq!(setup.next(), SetupCall::Create);
    run(&mut setup, &[Ok(3)]);
    assert_eq!(setup.next(), SetupCall::GetFd(3));
    run(&mut setup, &[Ok(8)]);
    assert_eq!(setup.next(), SetupCall::SetFd(3, 8));
    run(&mut setup, &[Err(1)]);
    assert_eq!(setup.next(), SetupCall::EventFd);
    run(&mut setup, &[Ok(4), Err(1)]);
    assert_eq!(setup.next(), SetupCall::Add(4, Event::readable(NOTIFY_KEY)));
    assert_eq!(setup.timer_fd, None);
}

#[test]
fn poller_that_cannot_be_set_up() {
    let mut setup = Setup::new();
    run(&mut setup, &[Err(7)]);
    assert_eq!(setup.next(), SetupCall::Failed(7));
    let mut setup = Setup::new();
    run(&mut setup, &[Ok(3), Err(9)]);
    assert_eq!(setup.next(), SetupCall::Failed(9));
}

#[test]
fn only_events_of_sockets_are_told() {
    let mut poller = Poller::new();
    assert!(poller.notify());
    assert!(!poller.notify());
    let happened = vec![Event::all(1), Event::readable(NOTIFY_KEY), Event::writable(2)];
    let mut events = Vec::new();
    assert_eq!(poller.waited(&happened, &mut events), 2);
    assert_eq!(events, vec![Event::all(1), Event::writable(2)]);
    assert!(poller.notify());
    assert!(Poller::check(&Event::all(0)).is_ok());
    let e = Poller::check(&Event::all(NOTIFY_KEY)).unwrap_err();
    assert_eq!(e.kind(), ErrorKind::InvalidInput);
    assert_eq!(e.text, "the key is not allowed to be `usize::MAX`");
}

#[test]
fn queue_of_kernel_events() {
    assert_eq!(from_kevent(1, Filter::Read, false), Event::readable(1));
    assert_eq!(from_kevent(1, Filter::Read, true), Event::all(1));
    assert_eq!(from_kevent(1, Filter::Write, true), Event::writable(1));
    assert_eq!(from_kevent(1, Filter::Other, true), Event::none(1));
    assert_eq!(changes(&Event::readable(1)), (Change::AddOneshot, Change::Delete));
    let fine = Receipt { error: true, data: 0 };
    let gone = Receipt { error: true, data: 2 };
    let broken = Receipt { error: true, data: 32 };
    let silent = Receipt { error: false, data: 5 };
    let bad = Receipt { error: true, data: 9 };
    assert_eq!(check_receipts(&vec![fine, gone, broken, silent], 2, 32), None);
    assert_eq!(check_receipts(&vec![fine, bad, gone], 2, 32), Some(9));
}

const LINUX: Platform = Platform {
    cloexec: true,
    no_sigpipe: false,
    in_progress: libc::EINPROGRESS,
    would_block: libc::EWOULDBLOCK,
};

const MAC: Platform = Platform { cloexec: false, no_sigpipe: true, in_progress: 36, would_block: 35 };

#[test]
fn connection_is_made() {
    let mut call = ConnectCall::Socket;
    let mut calls = Vec::new();
    for res in [Ok(3), Ok(2), Ok(0), Err(libc::EINPROGRESS)] {
        call = connect(call, res, &LINUX);
        calls.push(call);
    }
    assert_eq!(
        calls,
        vec![
            ConnectCall::GetFl(3),
            ConnectCall::SetFl(3, 2),
            ConnectCall::Connect(3),
            ConnectCall::Connected(3),
        ]
    );
    let mut call = ConnectCall::Socket;
    let mut calls = Vec::new();
    for res in [Ok(3), Ok(1), Ok(0), Ok(0), Ok(2), Ok(0), Err(13)] {
        call = connect(call, res, &MAC);
        calls.push(call);
    }
    assert_eq!(
        calls,
        vec![
            ConnectCall::GetFd(3),
            ConnectCall::SetFd(3, 1),
            ConnectCall::NoSigPipe(3),
            ConnectCall::GetFl(3),
            ConnectCall::SetFl(3, 2),
            ConnectCall::Connect(3),
            ConnectCall::Failed(13, Some(3)),
        ]
    );
}

#[test]
fn socket_that_was_not_made_is_not_closed() {
    assert_eq!(connect(ConnectCall::Socket, Err(24), &LINUX), ConnectCall::Failed(24, None));
    assert_eq!(connect(ConnectCall::GetFl(5), Err(9), &LINUX), ConnectCall::Failed(9, Some(5)));
}

#[test]
fn connection_on_windows() {
    let invalid = u64::MAX;
    assert_eq!(tcp_connect(WindowsCall::Socket, invalid, invalid, false), WindowsCall::Failed);
    assert_eq!(tcp_connect(WindowsCall::Socket, 3, invalid, false), WindowsCall::Inherit);
    assert_eq!(tcp_connect(WindowsCall::Inherit, 0, invalid, false), WindowsCall::Failed);
    assert_eq!(tcp_connect(WindowsCall::Inherit, 1, invalid, false), WindowsCall::NonBlocking);
    assert_eq!(tcp_connect(WindowsCall::NonBlocking, 0, invalid, false), WindowsCall::Connect);
    assert_eq!(tcp_connect(WindowsCall::NonBlocking, 1, invalid, false), WindowsCall::Failed);
    assert_eq!(tcp_connect(WindowsCall::Connect, 0, invalid, false), WindowsCall::Connected);
    assert_eq!(tcp_connect(WindowsCall::Connect, 1, invalid, true), WindowsCall::Connected);
    assert_eq!(tcp_connect(WindowsCall::Connect, 1, invalid, false), WindowsCall::Failed);
}

#[test]
fn path_of_a_socket() {
    let addr = unix_addr(b"/a", 5, 2).ok().unwrap();
    assert_eq!(addr.path, vec![b'/', b'a', 0, 0, 0]);
    assert_eq!(addr.len, 5);
    let unnamed = unix_addr(b"", 5, 2).ok().unwrap();
    assert_eq!(unnamed.len, 2);
    let hidden = unix_addr(b"\0abcd", 5, 2).ok().unwrap();
    assert_eq!(hidden.path, b"\0abcd".to_vec());
    assert_eq!(hidden.len, 7);
    let e = unix_addr(b"abcde", 5, 2).err().unwrap();
    assert_eq!(e.text, "path must be shorter than SUN_LEN");
    let e = unix_addr(b"\0abcde", 5, 2).err().unwrap();
    assert_eq!(e.text, "path must be no longer than SUN_LEN");
    assert_eq!(e.kind(), ErrorKind::InvalidInput);
}

#[test]
fn last_error_is_told() {
    let mut attempts = Attempts::new(Purpose::Stream);
    assert_eq!(attempts.tried(Err::<u8, Error>(Error::of(ErrorKind::NotFound))), None);
    assert_eq!(attempts.tried(Err::<u8, Error>(Error::of(ErrorKind::TimedOut))), None);
    assert_eq!(attempts.tried(Ok(3)), Some(3));
    assert_eq!(attempts.failed().kind(), ErrorKind::TimedOut);
    let texts = [
        (Purpose::Any, "could not resolve to any address"),
        (Purpose::Listen, "addresses resolve failed"),
        (Purpose::Stream, "connect failed"),
        (Purpose::BindDatagram, "could not bind to any of the addresses"),
        (Purpose::ConnectDatagram, "could not connect to any of the addresses"),
    ];
    for (purpose, text) in texts {
        let e = Attempts::new(purpose).failed();
        assert_eq!(e.text, text);
        assert_eq!(e.kind(), ErrorKind::InvalidInput);
    }
}

fn v4(bits: u32, port: u16) -> SocketAddr {
    SocketAddr::V4(SocketAddrV4 { ip: Ipv4Addr { bits }, port })
}

fn v6(bits: u128, port: u16) -> SocketAddr {
    SocketAddr::V6(SocketAddrV6 { ip: Ipv6Addr { bits }, port, flowinfo: 0, scope_id: 0 })
}

#[test]
fn addresses() {
    assert_eq!(v4(1, 2).to_socket_addrs(), vec![v4(1, 2)]);
    assert_eq!((Ipv4Addr { bits: 1 }, 2).to_socket_addrs(), vec![v4(1, 2)]);
    assert_eq!((Ipv6Addr { bits: 1 }, 2).to_socket_addrs(), vec![v6(1, 2)]);
    assert_eq!((IpAddr::V6(Ipv6Addr { bits: 9 }), 2).to_socket_addrs(), vec![v6(9, 2)]);
    let all = [v4(1, 2), v6(3, 4)];
    assert_eq!((&all[..]).to_socket_addrs(), all.to_vec());
    assert_eq!(host_addrs(Some(Ipv4Addr { bits: 1 }), None, 80), Some(vec![v4(1, 80)]));
    assert_eq!(host_addrs(None, Some(Ipv6Addr { bits: 1 }), 80), Some(vec![v6(1, 80)]));
    assert_eq!(host_addrs(None, None, 80), None);
}

#[test]
fn first_address() {
    assert_eq!(first_addr(Ok(vec![v4(1, 2), v4(3, 4)])).ok(), Some(v4(1, 2)));
    let none = first_addr(Ok(vec![])).err().unwrap();
    assert_eq!(none.kind(), ErrorKind::InvalidInput);
    assert!(first_addr(Err(Error::of(ErrorKind::NotFound))).is_err());
}

#[test]
fn addresses_that_are_looked_up() {
    let mut cx = Context::from_waker(Waker { id: 1 });
    let mut future: SocketAddrFuture<Ready<Result<u8, Error>>, u8> =
        SocketAddrFuture::Inflight(ready(Ok(5)));
    assert!(matches!(future.poll(&mut cx), Poll::Ready(Ok(5))));
    let mut future: SocketAddrFuture<Ready<Result<u8, Error>>, u8> =
        SocketAddrFuture::Ready(Err(Error::of(ErrorKind::NotFound)));
    assert!(matches!(future.poll(&mut cx), Poll::Ready(Err(_))));
    assert!(matches!(future, SocketAddrFuture::Finish));
}

#[test]
fn epoll_waits_with_a_timer() {
    let poller =
        Setup { call: SetupCall::Ready, epoll_fd: 3, event_fd: 4, timer_fd: Some(5), made: true };
    let mut wait = epoll::Wait::new(&poller, Some(2_000_000_001));
    assert_eq!(wait.call, epoll::WaitCall::SetTimer(5, 2, 1));
    wait.done(Ok(0));
    assert_eq!(wait.call, epoll::WaitCall::Modify(5, Event::readable(NOTIFY_KEY)));
    wait.done(Ok(0));
    assert_eq!(wait.call, epoll::WaitCall::Wait(-1));
    wait.done(Ok(2));
    assert_eq!(wait.call, epoll::WaitCall::Drain(4));
    // Nothing interrupted the wait.
    wait.done(Err(11));
    assert_eq!(wait.call, epoll::WaitCall::Modify(4, Event::readable(NOTIFY_KEY)));
    wait.done(Ok(0));
    assert_eq!(wait.call, epoll::WaitCall::Ready(2));
    assert_eq!(
        poller.teardown(),
        vec![
            epoll::CloseCall::Delete(5),
            epoll::CloseCall::Close(5),
            epoll::CloseCall::Delete(4),
            epoll::CloseCall::Close(4),
            epoll::CloseCall::Close(3),
        ]
    );
}

#[test]
fn epoll_waits_without_a_timer() {
    let poller = Setup { call: SetupCall::Ready, epoll_fd: 3, event_fd: 4, timer_fd: None, made: true };
    let mut wait = epoll::Wait::new(&poller, Some(1_500_000));
    assert_eq!(wait.call, epoll::WaitCall::Wait(2));
    wait.done(Err(4));
    assert_eq!(wait.call, epoll::WaitCall::Failed(4));
    assert_eq!(poller.teardown().len(), 3);
}

#[test]
fn kqueue_changes_both_directions() {
    assert_eq!(
        changelist(7, &Event::readable(1)),
        vec![
            Registration { fd: 7, filter: Filter::Read, change: Change::AddOneshot, key: 1 },
            Registration { fd: 7, filter: Filter::Write, change: Change::Delete, key: 1 },
        ]
    );
    assert!(letting_go(7).iter().all(|r| r.change == Change::Delete && r.key == 0));
    let missing = vec![Receipt { error: true, data: 2 }];
    assert_eq!(modified(Ok(()), &missing, 2, 32), Ok(()));
    assert_eq!(modified(Ok(()), &missing, 3, 32), Err(2));
    assert_eq!(modified(Err(9), &missing, 2, 32), Err(9));
}

#[test]
fn kqueue_is_set_up_and_waits() {
    let mut setup = kqueue::Setup::new();
    setup.done(Ok((3, 0)));
    assert_eq!(setup.call, kqueue::SetupCall::CloseOnExec(3));
    setup.done(Ok((0, 0)));
    assert_eq!(setup.call, kqueue::SetupCall::Pair);
    setup.done(Ok((4, 5)));
    assert_eq!(setup.call, kqueue::SetupCall::NonBlockingRead(4));
    setup.done(Ok((0, 0)));
    assert_eq!(setup.call, kqueue::SetupCall::NonBlockingWrite(5));
    setup.done(Ok((0, 0)));
    assert_eq!(setup.call, kqueue::SetupCall::Modify(4, Event::readable(NOTIFY_KEY)));
    let mut failed = setup;
    failed.done(Err(1));
    assert_eq!(failed.call, kqueue::SetupCall::Failed(1));
    setup.done(Ok((0, 0)));
    assert_eq!(setup.call, kqueue::SetupCall::Ready);

    let mut wait = kqueue::Wait::new(&setup, Some(1_000_000_002));
    assert_eq!(wait.call, kqueue::WaitCall::Wait(Some((1, 2))));
    wait.done(Ok(6));
    assert_eq!(wait.call, kqueue::WaitCall::Drain(4));
    wait.done(Ok(64));
    assert_eq!(wait.call, kqueue::WaitCall::Drain(4));
    wait.done(Err(35));
    assert_eq!(wait.call, kqueue::WaitCall::Modify(4, Event::readable(NOTIFY_KEY)));
    wait.done(Ok(0));
    assert_eq!(wait.call, kqueue::WaitCall::Ready(6));
}

#[test]
fn wepoll_goes_on_until_the_deadline() {
    let mut wait = wepoll::Wait::new(Some(3_000_000), 10);
    assert_eq!(wait.call, wepoll::WaitCall::Wait(3));
    wait.done(Ok(0), false, 1_000_010);
    assert_eq!(wait.call, wepoll::WaitCall::Wait(2));
    wait.done(Ok(0), false, 3_000_010);
    assert_eq!(wait.call, wepoll::WaitCall::Wait(0));
    wait.done(Ok(0), false, 3_000_010);
    assert_eq!(wait.call, wepoll::WaitCall::Ready(0));
    let mut wait = wepoll::Wait::new(None, 0);
    wait.done(Ok(0), true, 5);
    assert_eq!(wait.call, wepoll::WaitCall::Ready(0));
    let mut wait = wepoll::Wait::new(None, 0);
    wait.done(Err(6), false, 5);
    assert_eq!(wait.call, wepoll::WaitCall::Failed(6));
}

#[test]
fn poller_is_there_once_it_has_asked_for_a_timer() {
    let mut setup = Setup::new();
    run(&mut setup, &[Ok(3), Err(1)]);
    assert!(matches!(setup.next(), SetupCall::Failed(_)));
    assert!(!setup.made);
    let mut setup = Setup::new();
    run(&mut setup, &[Ok(3), Ok(4)]);
    assert!(!setup.made);
    run(&mut setup, &[Err(1)]);
    assert!(setup.made);
    run(&mut setup, &[Err(7)]);
    assert!(matches!(setup.next(), SetupCall::Failed(_)));
    assert!(setup.made);
}
