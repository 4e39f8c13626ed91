use pocker::futures::PendingFuture;
use pocker::{AsyncRuntime, AsyncRuntimeError, TaskBatch, TaskTracker};

type Runtime = AsyncRuntime<u8, String, 4>;
type Tracker = TaskTracker<u8, String, 4>;

fn waiting(runtime: &mut Runtime, reasons: &[u8]) -> Vec<PendingFuture<u8>> {
    let mut futures = Vec::new();
    for reason in reasons {
        let mut future = runtime.new_pending_future(*reason);
        assert_eq!(future.poll(runtime), None);
        futures.push(future);
    }
    futures
}

fn answer(reason: u8) -> Result<String, u8> {
    if reason % 10 == 0 {
        Err(reason)
    } else {
        Ok(format!("r{}", reason))
    }
}

#[test]
fn a_new_tracker_is_empty_and_ready() {
    let mut runtime = Runtime::new();
    let mut tracker = Tracker::default();
    assert!(tracker.is_empty());
    assert_eq!(tracker.len(), 0);
    assert_eq!(tracker.sync(&mut runtime), Ok(true));
    assert!(!runtime.has_unblocked());
}

#[test]
fn completed_tasks_are_handed_over_one_by_one() {
    let mut runtime = Runtime::new();
    let mut futures = waiting(&mut runtime, &[3, 1, 2]);
    let mut tracker = Tracker::new();
    assert_eq!(tracker.sync(&mut runtime), Ok(true));
    assert_eq!(tracker.register_if(&runtime, |reason| *reason != 2), Ok(()));
    assert_eq!(tracker.len(), 2);

    // Nothing is complete yet.
    assert_eq!(tracker.sync(&mut runtime), Ok(false));
    assert!(!runtime.has_unblocked());
    assert_eq!(tracker.work(answer), Ok(()));

    // The smallest reason comes first.
    assert_eq!(tracker.sync(&mut runtime), Ok(false));
    assert!(runtime.has_unblocked());
    assert_eq!(tracker.len(), 1);
    assert_eq!(futures[0].poll(&mut runtime), None);
    assert_eq!(futures[1].poll(&mut runtime), Some(Ok("r1".to_string())));

    assert_eq!(tracker.sync(&mut runtime), Ok(false));
    assert_eq!(tracker.len(), 0);
    assert_eq!(futures[0].poll(&mut runtime), Some(Ok("r3".to_string())));

    assert_eq!(tracker.sync(&mut runtime), Ok(true));
    assert_eq!(futures[2].poll(&mut runtime), None);
}

#[test]
fn tasks_that_nothing_waits_for_are_dropped() {
    let mut runtime = Runtime::new();
    let mut futures = waiting(&mut runtime, &[1, 2, 3]);
    let mut tracker = Tracker::new();
    assert_eq!(tracker.register_if(&runtime, |_| true), Ok(()));
    assert_eq!(tracker.work(answer), Ok(()));
    futures[0].cancel(&mut runtime);
    assert_eq!(tracker.sync(&mut runtime), Ok(false));
    // The first task is gone with its future, the second with its response.
    assert_eq!(tracker.len(), 1);
    assert_eq!(futures[1].poll(&mut runtime), Some(Ok("r2".to_string())));
    futures[2].cancel(&mut runtime);
    assert_eq!(tracker.sync(&mut runtime), Ok(true));
    assert!(tracker.is_empty());
}

#[test]
fn registration_keeps_responses_and_counts_once() {
    let mut runtime = Runtime::new();
    let mut futures = waiting(&mut runtime, &[1]);
    let mut tracker = Tracker::new();
    assert_eq!(tracker.register(1), Ok(()));
    assert_eq!(tracker.work(answer), Ok(()));
    assert_eq!(tracker.register(1), Ok(()));
    assert_eq!(tracker.register_if(&runtime, |_| true), Ok(()));
    assert_eq!(tracker.len(), 1);
    assert_eq!(tracker.sync(&mut runtime), Ok(false));
    assert_eq!(futures[0].poll(&mut runtime), Some(Ok("r1".to_string())));
}

#[test]
fn a_full_tracker_refuses_tasks_but_goes_on() {
    let mut runtime = Runtime::new();
    let _futures = waiting(&mut runtime, &[1, 2, 3]);
    let mut tracker = Tracker::new();
    for reason in [7, 8, 9] {
        assert_eq!(tracker.register(reason), Ok(()));
    }
    // There is room for the first of them only.
    assert_eq!(
        tracker.register_if(&runtime, |_| true),
        Err(AsyncRuntimeError::TooManyPending)
    );
    assert_eq!(tracker.len(), 4);
    assert_eq!(tracker.register(1), Ok(()));
    assert_eq!(tracker.register(2), Err(AsyncRuntimeError::TooManyPending));
}

#[test]
fn the_last_error_of_the_worker_is_reported() {
    let mut runtime = Runtime::new();
    let mut futures = waiting(&mut runtime, &[10, 11, 20, 21]);
    let mut tracker = Tracker::new();
    assert_eq!(tracker.register_if(&runtime, |_| true), Ok(()));
    assert_eq!(tracker.work(answer), Err(20));
    // The tasks that failed stay, the others are complete.
    assert_eq!(tracker.sync(&mut runtime), Ok(false));
    assert_eq!(futures[1].poll(&mut runtime), Some(Ok("r11".to_string())));
    assert_eq!(tracker.sync(&mut runtime), Ok(false));
    assert_eq!(futures[3].poll(&mut runtime), Some(Ok("r21".to_string())));
    assert_eq!(tracker.sync(&mut runtime), Ok(false));
    assert!(!runtime.has_unblocked());
    assert_eq!(tracker.len(), 2);
}

#[test]
fn batches_cover_every_task_once() {
    let mut runtime = Runtime::new();
    let mut futures = waiting(&mut runtime, &[1, 2, 3]);
    let mut tracker = Tracker::new();
    assert_eq!(tracker.register_if(&runtime, |_| true), Ok(()));
    let sizes = std::cell::RefCell::new(Vec::new());
    let result = tracker.work_in_batches(2, |batch: &mut TaskBatch<u8, String>| {
        sizes.borrow_mut().push(batch.len());
        for task in batch.iter_mut() {
            let task = task.as_mut().unwrap();
            task.1 = Some(format!("b{}", task.0));
        }
        if batch.len() == 2 {
            Err("first")
        } else {
            Ok(())
        }
    });
    assert_eq!(result, Err("first"));
    assert_eq!(sizes.into_inner(), vec![2, 1]);
    for i in 0..3 {
        assert_eq!(tracker.sync(&mut runtime), Ok(false));
        assert_eq!(
            futures[i].poll(&mut runtime),
            Some(Ok(format!("b{}", i + 1)))
        );
    }
    assert_eq!(tracker.sync(&mut runtime), Ok(true));
}

#[test]
fn without_tasks_there_is_no_batch() {
    let mut tracker = Tracker::new();
    let result: Result<(), u8> =
        tracker.work_in_batches(3, |_batch: &mut TaskBatch<u8, String>| Err(1));
    assert_eq!(result, Ok(()));
}
