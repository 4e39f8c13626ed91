use pocker::futures::{PendingFuture, DEFAULT_MAX_PENDING};
use pocker::yielder::YieldNow;
use pocker::{AsyncRuntime, AsyncRuntimeError, AsyncYielder};

type Runtime = AsyncRuntime<u8, char, 2>;

fn counts(runtime: &Runtime) -> Vec<(u8, usize)> {
    let mut counts = Vec::new();
    for i in 0..2 {
        if let Some(entry) = runtime.pending_futures().read_idx(i, |entry| *entry) {
            counts.push(entry);
        }
    }
    counts
}

#[test]
fn the_table_counts_the_waiting_futures() {
    let mut runtime = Runtime::new();
    let mut futures = vec![
        runtime.new_pending_future(9),
        runtime.new_pending_future(4),
        runtime.new_pending_future(9),
    ];
    assert_eq!(counts(&runtime), vec![]);
    for future in futures.iter_mut() {
        assert_eq!(future.poll(&mut runtime), None);
    }
    assert_eq!(counts(&runtime), vec![(4, 1), (9, 2)]);
    assert_eq!(runtime._pending_futures_size(), 2);

    runtime.unblock_futures(9, 'x');
    assert_eq!(futures[1].poll(&mut runtime), None);
    assert_eq!(futures[2].poll(&mut runtime), Some(Ok('x')));
    assert_eq!(futures[0].poll(&mut runtime), None);
    assert_eq!(counts(&runtime), vec![(4, 1), (9, 1)]);

    futures[0].cancel(&mut runtime);
    futures[1].cancel(&mut runtime);
    futures[2].cancel(&mut runtime);
    assert_eq!(counts(&runtime), vec![]);
    assert!(matches!(futures[2], PendingFuture::Finished));
}

#[test]
fn only_the_first_future_takes_the_response() {
    let mut runtime = Runtime::new();
    let mut a = runtime.new_pending_future(1);
    let mut b = runtime.new_pending_future(1);
    assert_eq!(a.poll(&mut runtime), None);
    assert_eq!(b.poll(&mut runtime), None);
    runtime.unblock_futures(1, 'r');
    assert!(runtime.has_unblocked());
    assert_eq!(a.poll(&mut runtime), Some(Ok('r')));
    assert!(!runtime.has_unblocked());
    assert_eq!(b.poll(&mut runtime), None);
    assert_eq!(counts(&runtime), vec![(1, 1)]);
}

#[test]
fn a_full_table_refuses_a_new_reason() {
    let mut runtime = Runtime::new();
    let mut a = runtime.new_pending_future(1);
    let mut b = runtime.new_pending_future(2);
    let mut c = runtime.new_pending_future(3);
    let mut d = runtime.new_pending_future(2);
    assert_eq!(a.poll(&mut runtime), None);
    assert_eq!(b.poll(&mut runtime), None);
    assert_eq!(
        c.poll(&mut runtime),
        Some(Err(AsyncRuntimeError::TooManyPending))
    );
    assert_eq!(d.poll(&mut runtime), None);
    assert_eq!(counts(&runtime), vec![(1, 1), (2, 2)]);
    // Where a reason has left, there is room again.
    a.cancel(&mut runtime);
    let mut c = runtime.new_pending_future(3);
    assert_eq!(c.poll(&mut runtime), None);
    assert_eq!(counts(&runtime), vec![(2, 2), (3, 1)]);
}

#[test]
fn a_future_can_be_ready_when_it_is_first_polled() {
    let mut runtime = Runtime::new();
    runtime.unblock_futures(5, 'q');
    let mut future = runtime.new_pending_future(5);
    assert_eq!(future.poll(&mut runtime), Some(Ok('q')));
    assert_eq!(counts(&runtime), vec![]);
    assert!(runtime._has_new_blockage());
}

#[test]
fn what_a_step_leaves_is_forgotten() {
    let mut runtime = Runtime::new();
    let mut future = runtime.new_pending_future(5);
    assert_eq!(
        runtime.run_async_step(|runtime| future.poll(runtime)),
        None
    );
    assert!(runtime._has_new_blockage());
    runtime.unblock_futures(6, 'q');
    assert_eq!(
        runtime.run_async_step(|runtime| future.poll(runtime)),
        None
    );
    assert!(!runtime.has_unblocked());
    assert!(!runtime._has_new_blockage());
    runtime.unblock_futures(5, 'r');
    assert_eq!(
        runtime.run_async_step(|runtime| future.poll(runtime)),
        Some(Ok('r'))
    );
}

#[test]
fn the_first_pending_reason_is_chosen() {
    let mut runtime: AsyncRuntime<u8, char, DEFAULT_MAX_PENDING> = AsyncRuntime::new();
    assert_eq!(runtime.check_pending_reasons(|_| true), None);
    for reason in [6, 2, 4] {
        assert_eq!(runtime.new_pending_future(reason).poll(&mut runtime), None);
    }
    let mut asked = Vec::new();
    let chosen = runtime.check_pending_reasons(|reason| {
        asked.push(reason);
        reason > 3
    });
    assert_eq!(chosen, Some(4));
    assert_eq!(asked, vec![2, 4]);
    assert_eq!(runtime.check_pending_reasons(|_| false), None);
}

#[test]
fn a_loop_that_yields_waits_for_a_turn() {
    let mut yielder = AsyncYielder::default();
    let mut first = yielder.yield_now();
    assert!(!first.poll(&yielder));
    assert!(!first.poll(&yielder));
    yielder.unblock();
    let mut second = yielder.yield_now();
    assert!(!second.poll(&yielder));
    yielder.unblock();
    yielder.unblock();
    assert!(first.poll(&yielder));
    assert!(second.poll(&yielder));
    assert!(matches!(first, YieldNow::Finished));
    // A turn that was over before the first poll does not count.
    let mut late = yielder.yield_now();
    yielder.unblock();
    assert!(!late.poll(&yielder));
}
