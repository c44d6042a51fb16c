use cynthia::future::block_on::block_on;
use cynthia::future::future::{
    or, outstanding, pending, poll_fn, poll_once, race, ready, try_zip, yield_now, zip, Future,
    FutureExt, Outstanding,
};
use cynthia::future::timeout::{timeout, TimeoutError};
use cynthia::io::reactor::Reactor;
use cynthia::task::{Context, Poll, Wake, Waker};

fn context(id: u64) -> Context {
    Context::from_waker(Waker { id })
}

#[test]
fn ready_is_done_at_once() {
    assert_eq!(ready(7).poll(&mut context(1)), Poll::Ready(7));
}

#[test]
fn pending_is_never_done() {
    let mut cx = context(1);
    let mut never = pending::<u8>();
    assert!(never.poll(&mut cx).is_pending());
    assert!(never.poll(&mut cx).is_pending());
    assert_eq!(cx.woken, vec![]);
}

#[test]
fn outstanding_is_done_once_there_is_something() {
    let mut cx = context(1);
    let mut future: Outstanding<u8> = outstanding();
    assert!(future.poll(&mut cx).is_pending());
    future.data = Some(3);
    assert!(future.poll(&mut cx).is_ready());
}

#[test]
fn yield_lets_others_go_first() {
    let mut cx = context(4);
    let mut y = yield_now();
    assert!(y.poll(&mut cx).is_pending());
    assert_eq!(cx.woken, vec![Wake::Task(Waker { id: 4 })]);
    assert!(y.poll(&mut cx).is_ready());
    assert_eq!(cx.woken.len(), 1);
}

#[test]
fn future_that_is_polled_once() {
    let mut cx = context(1);
    assert_eq!(poll_once(ready(1)).poll(&mut cx), Poll::Ready(Some(1)));
    assert_eq!(poll_once(pending::<u8>()).poll(&mut cx), Poll::Ready(None));
}

#[test]
fn function_that_is_polled() {
    let mut cx = context(9);
    let mut f = poll_fn(|cx: Context| {
        let id = cx.waker.id;
        (Poll::Ready(id), cx)
    });
    assert_eq!(f.poll(&mut cx), Poll::Ready(9));
    assert_eq!(cx.waker.id, 9);
}

#[test]
fn zip_waits_for_both() {
    let mut cx = context(1);
    assert_eq!(zip(ready(1), ready('a')).poll(&mut cx), Poll::Ready((1, 'a')));
    let mut z = zip(ready(1), yield_now());
    assert!(z.poll(&mut cx).is_pending());
    assert_eq!(z.poll(&mut cx), Poll::Ready((1, ())));
    assert!(zip(ready(1), pending::<u8>()).poll(&mut cx).is_pending());
}

#[test]
fn try_zip_ends_with_the_first_error() {
    let mut cx = context(1);
    let ok = || ready(Ok::<u8, char>(1));
    assert_eq!(try_zip(ok(), ok()).poll(&mut cx), Poll::Ready(Ok((1, 1))));
    let mut failed = try_zip(pending::<Result<u8, char>>(), ready(Err::<u8, char>('e')));
    assert_eq!(failed.poll(&mut cx), Poll::Ready(Err('e')));
    let mut both = try_zip(ready(Err::<u8, char>('a')), ready(Err::<u8, char>('b')));
    assert_eq!(both.poll(&mut cx), Poll::Ready(Err('a')));
}

#[test]
fn or_asks_the_first_one_first() {
    let mut cx = context(1);
    assert_eq!(or(ready(1), ready(2)).poll(&mut cx), Poll::Ready(1));
    assert_eq!(or(pending(), ready(2)).poll(&mut cx), Poll::Ready(2));
    assert!(or(pending::<u8>(), pending()).poll(&mut cx).is_pending());
    assert_eq!(FutureExt::or(ready(3), pending()).poll(&mut cx), Poll::Ready(3));
}

#[test]
fn race_is_won_by_whom_the_coin_favours() {
    let mut cx = context(1);
    let heads = race(ready(1), ready(2)).poll(&mut cx, true);
    let tails = race(ready(1), ready(2)).poll(&mut cx, false);
    assert_eq!(heads, Poll::Ready(1));
    assert_eq!(tails, Poll::Ready(2));
    assert_eq!(race(pending(), ready(2)).poll(&mut cx, true), Poll::Ready(2));
    assert_eq!(FutureExt::race(ready(2), pending()).poll(&mut cx, false), Poll::Ready(2));
}

#[test]
fn timeout_lets_the_future_go_first() {
    let mut cx = context(1);
    let mut reactor = Reactor::new();
    let mut done = timeout(0, ready(5), 10);
    assert_eq!(done.poll(&mut cx, &mut reactor, 10), (Poll::Ready(Ok(5)), false));
    let mut late = timeout(5, pending::<u8>(), 10);
    assert_eq!(late.poll(&mut cx, &mut reactor, 14), (Poll::Pending, true));
    assert_eq!(late.poll(&mut cx, &mut reactor, 15).0, Poll::Ready(Err(TimeoutError {})));
    assert_eq!(TimeoutError {}.to_string(), "future has timed out");
}

#[test]
fn thread_blocks_until_the_future_is_done() {
    let mut cx = context(1);
    let mut y = yield_now();
    assert_eq!(block_on(&mut y, &mut cx), None);
    assert_eq!(block_on(&mut y, &mut cx), Some(()));
}
