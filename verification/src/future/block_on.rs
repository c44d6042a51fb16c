//! Waiting for a future without being a task.

use vstd::prelude::*;
use crate::future::future::{continues, Future};
use crate::task::{Context, Poll};

verus! {

/// Polls a future once for a thread that waits for it. If nothing comes of it, the thread is to
/// park until it is woken up through the context, and to ask again.
pub fn block_on<F: Future>(future: &mut F, cx: &mut Context) -> (r: Option<F::Output>)
    requires
        old(future).live(),
    ensures
        continues(*old(cx), *final(cx)),
        match r {
            Some(output) => old(future).polled(
                *old(cx),
                Poll::Ready(output),
                *final(future),
                *final(cx),
            ),
            None => {
                &&& old(future).polled(*old(cx), Poll::Pending, *final(future), *final(cx))
                &&& final(future).live()
            },
        },
{
    match future.poll(cx) {
        Poll::Ready(output) => Some(output),
        Poll::Pending => None,
    }
}

} // verus!
