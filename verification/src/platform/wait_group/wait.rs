//! A group of tasks that counts those which are not done.

use vstd::prelude::*;
use crate::task::{Context, Poll, Wake, Waker};

verus! {

/// How many members of a group are not done; the group and its members share it.
pub struct WaitGroupInner {
    pub count: i32,
}

/// A group, or a member of one.
pub struct WaitGroup {
    waker: Option<Waker>,
    source: bool,
}

impl WaitGroup {
    /// This is the group itself, not a member.
    pub closed spec fn source(&self) -> bool {
        self.source
    }

    /// Whom to wake up when the last member is done.
    pub closed spec fn waker(&self) -> Option<Waker> {
        self.waker
    }

    /// A group without members.
    pub fn new() -> (r: (WaitGroup, WaitGroupInner))
        ensures
            r.0.source(),
            r.0.waker() is None,
            r.1.count == 0,
    {
        (WaitGroup { waker: None, source: true }, WaitGroupInner { count: 0 })
    }

    /// A new member of the group.
    pub fn wait_clone(inner: &mut WaitGroupInner, cx: &Context) -> (r: WaitGroup)
        requires
            old(inner).count < i32::MAX,
        ensures
            !r.source(),
            r.waker() == Some(cx.waker),
            final(inner).count == old(inner).count + 1,
    {
        let mut wg = WaitGroup { waker: None, source: false };
        wg.attach(inner, cx);
        wg
    }

    fn register(&mut self, new_waker: &Waker)
        ensures
            final(self).source() == old(self).source(),
            final(self).waker() == Some(*new_waker),
    {
        self.waker = Some(*new_waker);
    }

    fn attach(&mut self, inner: &mut WaitGroupInner, cx: &Context)
        requires
            old(inner).count < i32::MAX,
        ensures
            final(self).source() == old(self).source(),
            final(self).waker() == Some(cx.waker),
            final(inner).count == old(inner).count + 1,
    {
        self.register(&cx.waker);
        inner.count = inner.count + 1;
    }

    fn done(&mut self, inner: &mut WaitGroupInner, woken: &mut Vec<Wake>)
        requires
            old(inner).count > i32::MIN,
        ensures
            final(self).source() == old(self).source(),
            final(inner).count == old(inner).count - 1,
            final(inner).count == 0 ==> final(self).waker() is None && final(woken)@ == (match old(self).waker() {
                Some(waker) => old(woken)@.push(Wake::Task(waker)),
                None => old(woken)@,
            }),
            final(inner).count != 0 ==> final(self).waker() == old(self).waker() && final(woken)@
                == old(woken)@,
    {
        inner.count = inner.count - 1;
        if inner.count == 0 {
            match self.waker.take() {
                Some(waker) => woken.push(Wake::Task(waker)),
                None => {},
            }
        }
    }

    /// What comes of polling the group, or of a member that says that it is done.
    pub open spec fn polls(
        &self,
        count: int,
        woken: Seq<Wake>,
        r: Poll<()>,
        count_after: int,
        woken_after: Seq<Wake>,
    ) -> bool {
        if self.source() {
            &&& (r is Pending) == (count > 0)
            &&& count_after == count
            &&& woken_after == woken
        } else {
            &&& r is Ready
            &&& count_after == count - 1
            &&& woken_after == (if count_after == 0 && self.waker() is Some {
                woken.push(Wake::Task(self.waker()->0))
            } else {
                woken
            })
        }
    }

    /// Polls the group, which is ready once all members are done; or says that this member is done,
    /// which wakes up its task if it was the last one.
    pub fn poll(&mut self, inner: &mut WaitGroupInner, cx: &mut Context) -> (r: Poll<()>)
        requires
            !old(self).source() ==> old(inner).count > i32::MIN,
        ensures
            final(self).source() == old(self).source(),
            final(cx).waker == old(cx).waker,
            old(self).polls(
                old(inner).count as int,
                old(cx).woken@,
                r,
                final(inner).count as int,
                final(cx).woken@,
            ),
            old(self).source() ==> {
                &&& (r is Pending) == (old(inner).count > 0)
                &&& final(inner).count == old(inner).count
                &&& final(self).waker() == old(self).waker()
                &&& final(cx).woken@ == old(cx).woken@
            },
            !old(self).source() ==> {
                &&& r is Ready
                &&& final(inner).count == old(inner).count - 1
                &&& final(inner).count == 0 ==> final(self).waker() is None
                &&& final(inner).count != 0 ==> final(self).waker() == old(self).waker()
                &&& final(cx).woken@ == (if final(inner).count == 0 && old(self).waker() is Some {
                    old(cx).woken@.push(Wake::Task(old(self).waker()->0))
                } else {
                    old(cx).woken@
                })
            },
    {
        if self.source {
            if inner.count > 0 {
                Poll::Pending
            } else {
                Poll::Ready(())
            }
        } else {
            self.done(inner, &mut cx.woken);
            Poll::Ready(())
        }
    }
}

/// The group is waited for as long as a member is not done, and the member who ends that wakes up the
/// task that waits: exactly then the group is ready when it is polled next. Polling the group changes
/// nothing.
pub proof fn law_last_one_wakes(
    group: &WaitGroup,
    member: &WaitGroup,
    count: int,
    woken: Seq<Wake>,
    done: Poll<()>,
    count_after: int,
    woken_after: Seq<Wake>,
    r: Poll<()>,
    count_last: int,
    woken_last: Seq<Wake>,
)
    requires
        group.source(),
        !member.source(),
        member.waker() is Some,
        count > 0,
        member.polls(count, woken, done, count_after, woken_after),
        group.polls(count_after, woken_after, r, count_last, woken_last),
    ensures
        done is Ready,
        r is Ready <==> count == 1,
        r is Ready <==> woken_after == woken.push(Wake::Task(member.waker()->0)),
        r is Pending <==> woken_after == woken,
        count_last == count - 1,
        woken_last == woken_after,
{
    assert(woken.push(Wake::Task(member.waker()->0)).len() == woken.len() + 1);
}

} // verus!
