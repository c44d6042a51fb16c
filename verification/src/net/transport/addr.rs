//! Addresses, and how they are found.

use vstd::prelude::*;
use crate::future::future::Future;
use crate::io::error::{Error, ErrorKind};
use crate::task::{Context, Poll};

verus! {

/// An address of version four.
#[derive(Clone, Copy, Debug, PartialEq, Eq, Structural)]
pub struct Ipv4Addr {
    pub bits: u32,
}

/// An address of version six.
#[derive(Clone, Copy, Debug, PartialEq, Eq, Structural)]
pub struct Ipv6Addr {
    pub bits: u128,
}

#[derive(Clone, Copy, Debug, PartialEq, Eq, Structural)]
pub enum IpAddr {
    V4(Ipv4Addr),
    V6(Ipv6Addr),
}

#[derive(Clone, Copy, Debug, PartialEq, Eq, Structural)]
pub struct SocketAddrV4 {
    pub ip: Ipv4Addr,
    pub port: u16,
}

#[derive(Clone, Copy, Debug, PartialEq, Eq, Structural)]
pub struct SocketAddrV6 {
    pub ip: Ipv6Addr,
    pub port: u16,
    pub flowinfo: u32,
    pub scope_id: u32,
}

/// The address of a socket.
#[derive(Clone, Copy, Debug, PartialEq, Eq, Structural)]
pub enum SocketAddr {
    V4(SocketAddrV4),
    V6(SocketAddrV6),
}

/// The socket `port` of an address.
pub open spec fn at_port(ip: IpAddr, port: u16) -> SocketAddr {
    match ip {
        IpAddr::V4(ip) => SocketAddr::V4(SocketAddrV4 { ip, port }),
        IpAddr::V6(ip) => SocketAddr::V6(SocketAddrV6 { ip, port, flowinfo: 0, scope_id: 0 }),
    }
}

fn join(ip: IpAddr, port: u16) -> (r: SocketAddr)
    ensures
        r == at_port(ip, port),
        ip matches IpAddr::V4(v4) ==> (r matches SocketAddr::V4(a) && a.ip == v4 && a.port == port),
        ip matches IpAddr::V6(v6) ==> (r matches SocketAddr::V6(a) && a.ip == v6 && a.port == port
            && a.flowinfo == 0 && a.scope_id == 0),
{
    match ip {
        IpAddr::V4(ip) => SocketAddr::V4(SocketAddrV4 { ip, port }),
        IpAddr::V6(ip) => SocketAddr::V6(SocketAddrV6 { ip, port, flowinfo: 0, scope_id: 0 }),
    }
}

/// Something that stands for addresses, and for which nobody has to be asked.
pub trait AsyncToSocketAddrs {
    spec fn addrs(&self) -> Seq<SocketAddr>;

    fn to_socket_addrs(&self) -> (r: Vec<SocketAddr>)
        ensures
            r@ == self.addrs(),
    ;
}

impl AsyncToSocketAddrs for SocketAddr {
    open spec fn addrs(&self) -> Seq<SocketAddr> {
        seq![*self]
    }

    fn to_socket_addrs(&self) -> (r: Vec<SocketAddr>) {
        let mut r: Vec<SocketAddr> = Vec::new();
        r.push(*self);
        assert(r@ =~= seq![*self]);
        r
    }
}

impl AsyncToSocketAddrs for SocketAddrV4 {
    open spec fn addrs(&self) -> Seq<SocketAddr> {
        seq![SocketAddr::V4(*self)]
    }

    fn to_socket_addrs(&self) -> (r: Vec<SocketAddr>) {
        SocketAddr::V4(*self).to_socket_addrs()
    }
}

impl AsyncToSocketAddrs for SocketAddrV6 {
    open spec fn addrs(&self) -> Seq<SocketAddr> {
        seq![SocketAddr::V6(*self)]
    }

    fn to_socket_addrs(&self) -> (r: Vec<SocketAddr>) {
        SocketAddr::V6(*self).to_socket_addrs()
    }
}

impl AsyncToSocketAddrs for (IpAddr, u16) {
    open spec fn addrs(&self) -> Seq<SocketAddr> {
        seq![at_port(self.0, self.1)]
    }

    fn to_socket_addrs(&self) -> (r: Vec<SocketAddr>) {
        join(self.0, self.1).to_socket_addrs()
    }
}

impl AsyncToSocketAddrs for (Ipv4Addr, u16) {
    open spec fn addrs(&self) -> Seq<SocketAddr> {
        seq![at_port(IpAddr::V4(self.0), self.1)]
    }

    fn to_socket_addrs(&self) -> (r: Vec<SocketAddr>) {
        join(IpAddr::V4(self.0), self.1).to_socket_addrs()
    }
}

impl AsyncToSocketAddrs for (Ipv6Addr, u16) {
    open spec fn addrs(&self) -> Seq<SocketAddr> {
        seq![at_port(IpAddr::V6(self.0), self.1)]
    }

    fn to_socket_addrs(&self) -> (r: Vec<SocketAddr>) {
        join(IpAddr::V6(self.0), self.1).to_socket_addrs()
    }
}

impl<'a> AsyncToSocketAddrs for &'a [SocketAddr] {
    open spec fn addrs(&self) -> Seq<SocketAddr> {
        self@
    }

    fn to_socket_addrs(&self) -> (r: Vec<SocketAddr>) {
        let mut r: Vec<SocketAddr> = Vec::new();
        let mut i: usize = 0;
        while i < self.len()
            invariant
                i <= self@.len(),
                r@ == self@.take(i as int),
            decreases self@.len() - i,
        {
            r.push(self[i]);
            assert(self@.take(i + 1) =~= self@.take(i as int).push(self@[i as int]));
            i = i + 1;
        }
        assert(self@.take(i as int) =~= self@);
        r
    }
}

/// The addresses of the socket `port` of a host, if its name is an address itself: `v4` and `v6`
/// are what it is as such. Else somebody has to be asked.
pub fn host_addrs(v4: Option<Ipv4Addr>, v6: Option<Ipv6Addr>, port: u16) -> (r: Option<
    Vec<SocketAddr>,
>)
    ensures
        match (v4, v6) {
            (Some(ip), _) => r matches Some(v) && v@ == seq![at_port(IpAddr::V4(ip), port)],
            (None, Some(ip)) => r matches Some(v) && v@ == seq![at_port(IpAddr::V6(ip), port)],
            (None, None) => r is None,
        },
        v4 matches Some(ip) ==> (r matches Some(v) && v@.len() == 1 && (v@[0] matches SocketAddr::V4(
            a,
        ) && a.ip == ip && a.port == port)),
        v4 is None ==> (v6 matches Some(ip) ==> (r matches Some(v) && v@.len() == 1 && (
        v@[0] matches SocketAddr::V6(a) && a.ip == ip && a.port == port))),
{
    match v4 {
        Some(ip) => Some((ip, port).to_socket_addrs()),
        None => match v6 {
            Some(ip) => Some((ip, port).to_socket_addrs()),
            None => None,
        },
    }
}

/// Finds addresses: somebody was asked, or they are there.
pub enum SocketAddrFuture<F, I> {
    Inflight(F),
    Ready(Result<I, Error>),
    Finish,
}

impl<I, F: Future<Output = Result<I, Error>>> Future for SocketAddrFuture<F, I> {
    type Output = Result<I, Error>;

    open spec fn live(&self) -> bool {
        match *self {
            SocketAddrFuture::Inflight(task) => task.live(),
            SocketAddrFuture::Ready(_) => true,
            SocketAddrFuture::Finish => false,
        }
    }

    open spec fn polled(
        self,
        cx: Context,
        r: Poll<Result<I, Error>>,
        next: Self,
        after: Context,
    ) -> bool {
        match self {
            SocketAddrFuture::Inflight(task) => exists|task_after: F|
                {
                    &&& #[trigger] task.polled(cx, r, task_after, after)
                    &&& next == (if r is Pending {
                        SocketAddrFuture::<F, I>::Inflight(task_after)
                    } else {
                        SocketAddrFuture::Finish
                    })
                },
            SocketAddrFuture::Ready(res) => {
                &&& r == Poll::Ready(res)
                &&& next is Finish
                &&& after == cx
            },
            SocketAddrFuture::Finish => false,
        }
    }

    fn poll(&mut self, cx: &mut Context) -> (r: Poll<Result<I, Error>>) {
        let mut state = SocketAddrFuture::Finish;
        std::mem::swap(&mut state, self);
        match state {
            SocketAddrFuture::Inflight(mut task) => {
                let ghost asked = task;
                let r = task.poll(cx);
                assert(asked.polled(*old(cx), r, task, *cx));
                if r.is_pending() {
                    *self = SocketAddrFuture::Inflight(task);
                }
                r
            },
            SocketAddrFuture::Ready(res) => Poll::Ready(res),
            SocketAddrFuture::Finish => vstd::pervasive::unreached(),
        }
    }
}

/// The address that something is sent to: the first one.
pub fn first_addr(addrs: Result<Vec<SocketAddr>, Error>) -> (r: Result<SocketAddr, Error>)
    ensures
        match addrs {
            Err(e) => r == Err::<SocketAddr, Error>(e),
            Ok(v) => if v@.len() > 0 {
                r == Ok::<SocketAddr, Error>(v@[0])
            } else {
                r matches Err(e) && e.says(
                    ErrorKind::InvalidInput,
                    "no addresses to send data to"@,
                )
            },
        },
{
    match addrs {
        Err(e) => Err(e),
        Ok(v) => if v.len() > 0 {
            Ok(v[0])
        } else {
            Err(Error::new(ErrorKind::InvalidInput, "no addresses to send data to"))
        },
    }
}

/// The addresses of a host that is an address are one, with that address and that port.
pub proof fn law_at_port(ip: IpAddr, port: u16, other: IpAddr, other_port: u16)
    ensures
        at_port(ip, port) is V4 <==> ip is V4,
        at_port(ip, port) matches SocketAddr::V4(a) ==> IpAddr::V4(a.ip) == ip && a.port == port,
        at_port(ip, port) matches SocketAddr::V6(a) ==> IpAddr::V6(a.ip) == ip && a.port == port
            && a.flowinfo == 0 && a.scope_id == 0,
        at_port(ip, port) == at_port(other, other_port) ==> ip == other && port == other_port,
{
}

/// Whoever was asked for addresses is asked until they answer, and what they answer is what is
/// found; nobody is asked where the addresses are there.
pub proof fn law_addresses_found<I, F: Future<Output = Result<I, Error>>>(
    future: SocketAddrFuture<F, I>,
    cx: Context,
    r: Poll<Result<I, Error>>,
    next: SocketAddrFuture<F, I>,
    after: Context,
)
    requires
        future.polled(cx, r, next, after),
    ensures
        future matches SocketAddrFuture::Ready(res) ==> r == Poll::Ready(res) && after == cx,
        r is Pending ==> future is Inflight && next is Inflight,
        r is Ready ==> next is Finish,
        future matches SocketAddrFuture::Inflight(task) ==> exists|task_after: F| #[trigger]
            task.polled(cx, r, task_after, after) && (r is Pending ==> next
                == SocketAddrFuture::<F, I>::Inflight(task_after)),
{
}

/// An address stands for itself alone, whichever way it is written, and a list of addresses stands
/// for those in it, in their order.
pub proof fn law_stands_for_itself(
    addr: SocketAddr,
    v4: SocketAddrV4,
    v6: SocketAddrV6,
    ip: IpAddr,
    port: u16,
    list: &[SocketAddr],
    i: int,
)
    requires
        0 <= i < list@.len(),
    ensures
        addr.addrs().len() == 1 && addr.addrs()[0] == addr,
        v4.addrs() == SocketAddr::V4(v4).addrs(),
        v6.addrs() == SocketAddr::V6(v6).addrs(),
        (ip, port).addrs().len() == 1 && (ip, port).addrs()[0] == at_port(ip, port),
        (v4.ip, port).addrs() == (IpAddr::V4(v4.ip), port).addrs(),
        (v6.ip, port).addrs() == (IpAddr::V6(v6.ip), port).addrs(),
        list.addrs().len() == list@.len() && list.addrs()[i] == list@[i],
{
}

} // verus!
