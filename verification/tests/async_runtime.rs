use pocker::common::AsyncRuntimeError;
use pocker::futures::{AsyncRuntime, PendingFuture};
use std::cell::RefCell;
use std::future::Future;
use std::pin::Pin;
use std::sync::Arc;
use std::task::{Context, Poll, Wake, Waker};

/// This is just an example YieldReason.
#[derive(Copy, Clone, Debug, PartialEq, Eq, PartialOrd, Ord)]
enum PtraceFutureTypes {
    WaitForPtraceSyscall,
    WaitForSignal,
}

/// This is just an example YieldResponse.
#[derive(Clone, Debug, PartialEq)]
struct PtraceStatus {}

const MAX_PENDING: usize = 1024;

type Core = AsyncRuntime<PtraceFutureTypes, PtraceStatus, MAX_PENDING>;

/// The runtime, shared between the caller and the futures that it polls.
struct PtraceAsyncRuntime {
    core: RefCell<Core>,
}

/// A pending future that can be awaited.
struct WaitFor<'a> {
    runtime: &'a PtraceAsyncRuntime,
    state: PendingFuture<PtraceFutureTypes>,
}

impl<'a> Future for WaitFor<'a> {
    type Output = Result<PtraceStatus, AsyncRuntimeError>;

    fn poll(self: Pin<&mut Self>, _: &mut Context<'_>) -> Poll<Self::Output> {
        let this = self.get_mut();
        match this.state.poll(&mut *this.runtime.core.borrow_mut()) {
            Some(result) => Poll::Ready(result),
            None => Poll::Pending,
        }
    }
}

impl<'a> Drop for WaitFor<'a> {
    fn drop(&mut self) {
        self.state.cancel(&mut *self.runtime.core.borrow_mut());
    }
}

/// Panics whenever any async code calls the waker at all.
struct WakerWithAssertions;

impl Wake for WakerWithAssertions {
    fn wake(self: Arc<Self>) {
        panic!(
            "Internal error, KRSM Async Runtime detected invalid usage of external async library"
        );
    }
}

impl PtraceAsyncRuntime {
    fn new() -> Self {
        PtraceAsyncRuntime { core: RefCell::new(AsyncRuntime::new()) }
    }

    fn new_pending_future(&self, reason: PtraceFutureTypes) -> WaitFor<'_> {
        let state = self.core.borrow().new_pending_future(reason);
        WaitFor { runtime: self, state }
    }

    fn unblock_futures(&self, reason: PtraceFutureTypes, status: PtraceStatus) {
        assert!(!self.core.borrow().has_unblocked());
        self.core.borrow_mut().unblock_futures(reason, status);
    }

    /// While the future is polled, the runtime is back in its cell, where the futures find it.
    fn run_async_step<F: Future>(&self, future: &mut Pin<&mut F>) -> Option<F::Output> {
        let waker = Waker::from(Arc::new(WakerWithAssertions));
        let mut cx = Context::from_waker(&waker);
        let mut running = self.core.replace(AsyncRuntime::new());
        let output = running.run_async_step(|core: &mut Core| {
            std::mem::swap(core, &mut *self.core.borrow_mut());
            let output = match future.as_mut().poll(&mut cx) {
                Poll::Ready(val) => Some(val),
                Poll::Pending => None,
            };
            std::mem::swap(core, &mut *self.core.borrow_mut());
            output
        });
        self.core.replace(running);
        output
    }

    fn _has_new_blockage(&self) -> bool {
        self.core.borrow()._has_new_blockage()
    }

    fn _pending_futures_size(&self) -> usize {
        self.core.borrow()._pending_futures_size()
    }
}

fn _assert_one_pending_at(runtime: &PtraceAsyncRuntime, idx: usize, reason: PtraceFutureTypes) {
    assert_eq!(
        runtime.core.borrow().pending_futures().read_idx(idx, |x| *x),
        Some((reason, 1))
    );
}

#[test]
fn test_basic_async_function() {
    let runtime = PtraceAsyncRuntime::new();
    let mut boxed_future = Box::pin(futures_lite::future::ready(123));
    let mut test_future = boxed_future.as_mut();
    assert_eq!(runtime.run_async_step(&mut test_future), Some(123));
}

#[test]
fn test_basic_blocking_on_built_future() {
    let runtime = PtraceAsyncRuntime::new();
    assert_eq!(runtime._pending_futures_size(), 0);

    let mut boxed_future =
        Box::pin(runtime.new_pending_future(PtraceFutureTypes::WaitForPtraceSyscall));
    let mut test_future = boxed_future.as_mut();
    assert_eq!(runtime.run_async_step(&mut test_future), None);
    assert!(runtime._has_new_blockage());
    assert_eq!(runtime._pending_futures_size(), 1);
    _assert_one_pending_at(&runtime, 0, PtraceFutureTypes::WaitForPtraceSyscall);

    // Unblock an irrelevant future
    let event1 = PtraceStatus {};
    runtime.unblock_futures(PtraceFutureTypes::WaitForSignal, event1);
    assert_eq!(runtime.run_async_step(&mut test_future), None);
    assert!(!runtime._has_new_blockage());
    assert_eq!(runtime._pending_futures_size(), 1);
    _assert_one_pending_at(&runtime, 0, PtraceFutureTypes::WaitForPtraceSyscall);

    // Unblock the original future
    let event2 = PtraceStatus {};
    runtime.unblock_futures(PtraceFutureTypes::WaitForPtraceSyscall, event2.clone());
    assert_eq!(runtime._pending_futures_size(), 1);
    let output = runtime.run_async_step(&mut test_future);
    assert_eq!(runtime._pending_futures_size(), 0);
    assert_eq!(output, Some(Ok(event2)));
    assert!(!runtime._has_new_blockage());
}

#[test]
fn test_blocking_on_two_built_futures() {
    let runtime = PtraceAsyncRuntime::new();
    let mut boxed_future = Box::pin(async {
        runtime
            .new_pending_future(PtraceFutureTypes::WaitForPtraceSyscall)
            .await?;
        runtime
            .new_pending_future(PtraceFutureTypes::WaitForSignal)
            .await?;
        Ok::<i32, AsyncRuntimeError>(42)
    });
    let mut test_future = boxed_future.as_mut();
    assert_eq!(runtime.run_async_step(&mut test_future), None);
    assert!(runtime._has_new_blockage());

    // Unblock an irrelevant future
    let event1 = PtraceStatus {};
    runtime.unblock_futures(PtraceFutureTypes::WaitForSignal, event1);
    assert_eq!(runtime.run_async_step(&mut test_future), None);
    assert!(!runtime._has_new_blockage());

    // Unblock the first future
    let event2 = PtraceStatus {};
    runtime.unblock_futures(PtraceFutureTypes::WaitForPtraceSyscall, event2.clone());
    assert_eq!(runtime.run_async_step(&mut test_future), None);
    assert!(runtime._has_new_blockage());

    // Unblock the second future (ignoring the first irrelevant unblock for WaitForSignal)
    let event3 = PtraceStatus {};
    runtime.unblock_futures(PtraceFutureTypes::WaitForSignal, event3.clone());
    let output = runtime.run_async_step(&mut test_future);
    assert_eq!(output, Some(Ok(42)));
    assert!(!runtime._has_new_blockage());
}

#[test]
fn test_compatible_with_futures_lite_zip_in_order() {
    let runtime = PtraceAsyncRuntime::new();
    let mut boxed_future = Box::pin(futures_lite::future::zip(
        runtime.new_pending_future(PtraceFutureTypes::WaitForPtraceSyscall),
        runtime.new_pending_future(PtraceFutureTypes::WaitForSignal),
    ));
    let mut test_future = boxed_future.as_mut();
    assert_eq!(runtime.run_async_step(&mut test_future), None);
    assert!(runtime._has_new_blockage());

    // Unblock the first future
    let event2 = PtraceStatus {};
    runtime.unblock_futures(PtraceFutureTypes::WaitForPtraceSyscall, event2.clone());
    assert_eq!(runtime.run_async_step(&mut test_future), None);
    assert!(!runtime._has_new_blockage());

    // Unblock the second future
    let event3 = PtraceStatus {};
    runtime.unblock_futures(PtraceFutureTypes::WaitForSignal, event3.clone());
    let (output1, output2) = runtime.run_async_step(&mut test_future).unwrap();
    assert_eq!(output1, Ok(event2));
    assert_eq!(output2, Ok(event3));
    assert!(!runtime._has_new_blockage());
}

#[test]
fn test_compatible_with_futures_lite_zip_in_reversed_order() {
    let runtime = PtraceAsyncRuntime::new();
    let mut boxed_future = Box::pin(futures_lite::future::zip(
        runtime.new_pending_future(PtraceFutureTypes::WaitForPtraceSyscall),
        runtime.new_pending_future(PtraceFutureTypes::WaitForSignal),
    ));
    let mut test_future = boxed_future.as_mut();
    assert_eq!(runtime.run_async_step(&mut test_future), None);
    assert!(runtime._has_new_blockage());

    // Unblock the second future
    let event2 = PtraceStatus {};
    runtime.unblock_futures(PtraceFutureTypes::WaitForSignal, event2.clone());
    assert_eq!(runtime.run_async_step(&mut test_future), None);
    assert!(!runtime._has_new_blockage());

    // Unblock the first future
    let event3 = PtraceStatus {};
    runtime.unblock_futures(PtraceFutureTypes::WaitForPtraceSyscall, event3.clone());
    let (output1, output2) = runtime.run_async_step(&mut test_future).unwrap();
    assert_eq!(output1, Ok(event3));
    assert_eq!(output2, Ok(event2));
    assert!(!runtime._has_new_blockage());
}

#[test]
fn test_compatible_with_futures_lite_or_resolves_first() {
    let runtime = PtraceAsyncRuntime::new();
    let mut boxed_future = Box::pin(futures_lite::future::or(
        async {
            runtime
                .new_pending_future(PtraceFutureTypes::WaitForPtraceSyscall)
                .await?;
            Ok::<i32, AsyncRuntimeError>(234)
        },
        async {
            runtime
                .new_pending_future(PtraceFutureTypes::WaitForSignal)
                .await?;
            Ok::<i32, AsyncRuntimeError>(456)
        },
    ));
    let mut test_future = boxed_future.as_mut();
    assert_eq!(runtime.run_async_step(&mut test_future), None);
    assert!(runtime._has_new_blockage());
    assert_eq!(runtime._pending_futures_size(), 2);
    _assert_one_pending_at(&runtime, 0, PtraceFutureTypes::WaitForPtraceSyscall);
    _assert_one_pending_at(&runtime, 1, PtraceFutureTypes::WaitForSignal);

    // Unblock the first future
    let event = PtraceStatus {};
    runtime.unblock_futures(PtraceFutureTypes::WaitForPtraceSyscall, event.clone());
    assert_eq!(runtime._pending_futures_size(), 2);
    let output = runtime.run_async_step(&mut test_future);
    assert_eq!(runtime._pending_futures_size(), 1);
    assert_eq!(output, Some(Ok(234)));
    assert!(!runtime._has_new_blockage());
}

#[test]
fn test_compatible_with_futures_lite_or_resolves_second() {
    let runtime = PtraceAsyncRuntime::new();
    let mut boxed_future = Box::pin(futures_lite::future::or(
        async {
            runtime
                .new_pending_future(PtraceFutureTypes::WaitForPtraceSyscall)
                .await?;
            Ok::<i32, AsyncRuntimeError>(234)
        },
        async {
            runtime
                .new_pending_future(PtraceFutureTypes::WaitForSignal)
                .await?;
            Ok::<i32, AsyncRuntimeError>(456)
        },
    ));
    let mut test_future = boxed_future.as_mut();
    assert_eq!(runtime.run_async_step(&mut test_future), None);
    assert!(runtime._has_new_blockage());
    assert_eq!(runtime._pending_futures_size(), 2);
    _assert_one_pending_at(&runtime, 0, PtraceFutureTypes::WaitForPtraceSyscall);
    _assert_one_pending_at(&runtime, 1, PtraceFutureTypes::WaitForSignal);

    // Unblock the second future
    let event = PtraceStatus {};
    runtime.unblock_futures(PtraceFutureTypes::WaitForSignal, event.clone());
    assert_eq!(runtime._pending_futures_size(), 2);
    let output = runtime.run_async_step(&mut test_future);
    assert_eq!(runtime._pending_futures_size(), 1);
    _assert_one_pending_at(&runtime, 0, PtraceFutureTypes::WaitForPtraceSyscall);
    assert_eq!(output, Some(Ok(456)));
    assert!(!runtime._has_new_blockage());
}

async fn _future_with_waker(runtime: &PtraceAsyncRuntime) -> Result<(), AsyncRuntimeError> {
    futures_lite::future::or(
        async {
            runtime
                .new_pending_future(PtraceFutureTypes::WaitForPtraceSyscall)
                .await?;
            futures_lite::future::yield_now().await;
            Ok::<i32, AsyncRuntimeError>(234)
        },
        async {
            runtime
                .new_pending_future(PtraceFutureTypes::WaitForSignal)
                .await?;
            Ok::<i32, AsyncRuntimeError>(456)
        },
    )
    .await?;
    Ok(())
}

#[test]
fn test_incompatible_with_waker_such_as_futures_lite_yield_now_step1() {
    // futures_lite::future::yield_now() uses a Waker.
    let runtime = PtraceAsyncRuntime::new();
    let mut boxed_future = Box::pin(_future_with_waker(&runtime));
    let mut test_future = boxed_future.as_mut();

    // Run the first async step, which should not panic
    assert_eq!(runtime.run_async_step(&mut test_future), None);
    assert!(runtime._has_new_blockage());

    // Unblock the first await
    let event = PtraceStatus {};
    runtime.unblock_futures(PtraceFutureTypes::WaitForPtraceSyscall, event.clone());
}

#[test]
#[should_panic(
    expected = "Internal error, KRSM Async Runtime detected invalid usage of external async library"
)]
fn test_incompatible_with_waker_such_as_futures_lite_yield_now_step2() {
    // futures_lite::future::yield_now() uses a Waker.
    let runtime = PtraceAsyncRuntime::new();
    let mut boxed_future = Box::pin(_future_with_waker(&runtime));
    let mut test_future = boxed_future.as_mut();

    // Run the first async step, which should not panic
    assert_eq!(runtime.run_async_step(&mut test_future), None);
    assert!(runtime._has_new_blockage());

    // Unblock the first await
    let event = PtraceStatus {};
    runtime.unblock_futures(PtraceFutureTypes::WaitForPtraceSyscall, event.clone());

    // Run the first async step, which should panic
    let _ = runtime.run_async_step(&mut test_future);
}

#[test]
fn only_the_first_of_two_equal_waits_is_unblocked() {
    let runtime = PtraceAsyncRuntime::new();
    let mut boxed_future = Box::pin(futures_lite::future::or(
        async {
            let _ = runtime
                .new_pending_future(PtraceFutureTypes::WaitForSignal)
                .await;
            1
        },
        async {
            let _ = runtime
                .new_pending_future(PtraceFutureTypes::WaitForSignal)
                .await;
            2
        },
    ));
    let mut test_future = boxed_future.as_mut();
    assert_eq!(runtime.run_async_step(&mut test_future), None);
    assert_eq!(runtime._pending_futures_size(), 1);
    assert_eq!(
        runtime.core.borrow().pending_futures().read_idx(0, |x| *x),
        Some((PtraceFutureTypes::WaitForSignal, 2))
    );
    runtime.unblock_futures(PtraceFutureTypes::WaitForSignal, PtraceStatus {});
    assert_eq!(runtime.run_async_step(&mut test_future), Some(1));
    assert_eq!(
        runtime.core.borrow().pending_futures().read_idx(0, |x| *x),
        Some((PtraceFutureTypes::WaitForSignal, 1))
    );
}
