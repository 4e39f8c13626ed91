//! What the tracker of tasks is for, stated of its calls.
use vstd::arithmetic::div_mod::lemma_fundamental_div_mod;
use vstd::prelude::*;

use crate::common::{below, AsyncRuntimeError};
use crate::entries::{
    has_key, key_at, lemma_filter_sorted, lemma_inserted_sorted, lemma_lookup_inserted,
    lemma_lookup_removed, lookup, removed, sorted,
};
use crate::futures::AsyncRuntime;
use crate::order::{key_eq, key_lt, obeys_order};
use crate::tasks::{
    all_fit, answered, batch_of, chosen_by, complete, first_complete, is_batch,
    is_batch_count, last_error, lemma_chosen_registered, lemma_no_error, lemma_one_batch_each,
    lemma_registrations_keep, lemma_wanted_only, none_complete, registered_all,
    still_wanted, worked_by, TaskBatch, TaskTracker,
};

verus! {

/// A new tracker has no task, and what can be asked of a tracker is answered as it is.
pub proof fn lemma_tracker_answers<K: Copy + Eq + Ord, R: PartialEq, const N: usize>(
    fresh: TaskTracker<K, R, N>,
    plain: TaskTracker<K, R, N>,
    tracker: TaskTracker<K, R, N>,
    reason: K,
    len: usize,
    empty: bool,
    done: bool,
)
    requires
        call_ensures(TaskTracker::<K, R, N>::new, (), fresh),
        call_ensures(TaskTracker::<K, R, N>::default, (), plain),
        call_ensures(TaskTracker::<K, R, N>::len, (&tracker,), len),
        call_ensures(TaskTracker::<K, R, N>::is_empty, (&tracker,), empty),
        call_ensures(TaskTracker::<K, R, N>::is_task_complete, (&tracker, &reason), done),
    ensures
        fresh.wf() && lookup(fresh.tasks(), reason) is None,
        plain.wf() && lookup(plain.tasks(), reason) is None,
        len == tracker.tasks().len(),
        empty <==> len == 0,
        done <==> lookup(tracker.tasks(), reason) matches Some(Some(_)),
{
}

/// The task of a reason has come back with a response.
pub open spec fn is_done<K: Ord, R>(tasks: Seq<(K, Option<R>)>, reason: K) -> bool {
    lookup(tasks, reason) matches Some(Some(_))
}

/// Of the tasks, exactly those are kept that something waits for, as they are. If any of them has
/// its response, the one with the smallest reason is taken out: its reason is unblocked, with that
/// response, and the machine has to run a step. If none has, nothing is unblocked, and the tracker
/// is ready for more exactly if it is empty.
pub proof fn lemma_sync_unblocks_smallest<K: Copy + Eq + Ord, R: PartialEq, const N: usize>(
    other: K,
)
    requires
        obeys_order::<K>(),
    ensures
        forall|
            tracker: &mut TaskTracker<K, R, N>,
            rt: &mut AsyncRuntime<K, R, N>,
            r: Result<bool, AsyncRuntimeError>,
        | #[trigger]
            call_ensures(TaskTracker::<K, R, N>::sync, (tracker, rt), r) && tracker.wf()
                && rt.wf() ==> {
                let tasks = tracker.tasks();
                let pending = rt.pending();
                let any_done = exists|i: int|
                    0 <= i < pending.len() && is_done(tasks, (#[trigger] pending[i]).0);
                &&& final(tracker).wf()
                &&& final(rt).wf()
                &&& final(rt).pending() == pending
                &&& any_done ==> {
                    let given = final(rt).unblocked()->0;
                    &&& r == Ok::<bool, AsyncRuntimeError>(false)
                    &&& final(rt).unblocked() is Some
                    &&& has_key(pending, given.0)
                    &&& lookup(tasks, given.0) == Some(Some(given.1))
                    &&& forall|i: int|
                        0 <= i < pending.len() && key_lt((#[trigger] pending[i]).0, given.0)
                            ==> !is_done(tasks, pending[i].0)
                    &&& lookup(final(tracker).tasks(), other) == if has_key(pending, other)
                        && !key_eq(given.0, other) {
                        lookup(tasks, other)
                    } else {
                        None
                    }
                }
                &&& !any_done ==> {
                    &&& r == Ok::<bool, AsyncRuntimeError>(final(tracker).tasks().len() == 0)
                    &&& final(rt).unblocked() == rt.unblocked()
                    &&& lookup(final(tracker).tasks(), other) == if has_key(pending, other) {
                        lookup(tasks, other)
                    } else {
                        None
                    }
                }
            },
{
    assert forall|
        tracker: &mut TaskTracker<K, R, N>,
        rt: &mut AsyncRuntime<K, R, N>,
        r: Result<bool, AsyncRuntimeError>,
    | #[trigger]
        call_ensures(TaskTracker::<K, R, N>::sync, (tracker, rt), r) && tracker.wf()
            && rt.wf() implies {
        let tasks = tracker.tasks();
        let pending = rt.pending();
        let any_done = exists|i: int|
            0 <= i < pending.len() && is_done(tasks, (#[trigger] pending[i]).0);
        let given = final(rt).unblocked()->0;
        &&& any_done ==> {
            &&& r == Ok::<bool, AsyncRuntimeError>(false)
            &&& final(rt).unblocked() is Some
            &&& has_key(pending, given.0)
            &&& lookup(tasks, given.0) == Some(Some(given.1))
            &&& forall|i: int|
                0 <= i < pending.len() && key_lt((#[trigger] pending[i]).0, given.0) ==> !is_done(
                    tasks,
                    pending[i].0,
                )
            &&& lookup(final(tracker).tasks(), other) == if has_key(pending, other) && !key_eq(
                given.0,
                other,
            ) {
                lookup(tasks, other)
            } else {
                None
            }
        }
        &&& !any_done ==> {
            &&& r == Ok::<bool, AsyncRuntimeError>(final(tracker).tasks().len() == 0)
            &&& final(rt).unblocked() == rt.unblocked()
            &&& lookup(final(tracker).tasks(), other) == if has_key(pending, other) {
                lookup(tasks, other)
            } else {
                None
            }
        }
    } by {
        let tasks = tracker.tasks();
        let pending = rt.pending();
        let wanted = still_wanted(tasks, pending);
        lemma_wanted_only(tasks, pending, other);
        assert forall|i: int| 0 <= i < pending.len() implies complete(
            wanted,
            (#[trigger] pending[i]).0,
        ) == is_done(tasks, pending[i].0) && has_key(pending, pending[i].0) && lookup(
            wanted,
            pending[i].0,
        ) == lookup(tasks, pending[i].0) by {
            assert(key_eq(pending[i].0, pending[i].0));
            assert(key_at(pending, i, pending[i].0));
            lemma_wanted_only(tasks, pending, pending[i].0);
        }
        if none_complete(wanted, pending) {
            assert(forall|i: int|
                0 <= i < pending.len() ==> !is_done(tasks, (#[trigger] pending[i]).0));
        } else {
            let i = choose|i: int|
                {
                    &&& #[trigger] first_complete(wanted, pending, i)
                    &&& final(tracker).tasks() == removed(wanted, pending[i].0)
                    &&& final(rt).unblocked() == Some(
                        (pending[i].0, (lookup(wanted, pending[i].0)->0)->0),
                    )
                };
            assert(is_done(tasks, pending[i].0));
            lemma_filter_sorted(
                tasks,
                |e: (K, Option<R>)| has_key(pending, e.0),
            );
            lemma_lookup_removed(wanted, pending[i].0, other);
            assert forall|j: int|
                0 <= j < pending.len() && key_lt((#[trigger] pending[j]).0, pending[i].0) implies !is_done(
                tasks,
                pending[j].0,
            ) by {
                if j > i {
                    assert(key_lt(pending[i].0, pending[j].0));
                }
            }
        }
    }
}

/// A task is registered unless its reason has one, and refused exactly if there is no place for it.
/// No other task is touched.
pub proof fn lemma_task_registered<K: Copy + Eq + Ord, R: PartialEq, const N: usize>(
    reason: K,
    other: K,
)
    requires
        obeys_order::<K>(),
    ensures
        forall|tracker: &mut TaskTracker<K, R, N>, r: Result<(), AsyncRuntimeError>| #[trigger]
            call_ensures(TaskTracker::<K, R, N>::register, (tracker, reason), r) && tracker.wf()
                ==> {
                let had = lookup(tracker.tasks(), reason) is Some;
                let full = tracker.tasks().len() == N;
                &&& final(tracker).wf()
                &&& r == Err::<(), AsyncRuntimeError>(AsyncRuntimeError::TooManyPending) <==> !had
                    && full
                &&& r is Ok <==> had || !full
                &&& lookup(final(tracker).tasks(), other) == if key_eq(reason, other) && !had
                    && !full {
                    Some(None)
                } else {
                    lookup(tracker.tasks(), other)
                }
            },
{
    assert forall|tracker: &mut TaskTracker<K, R, N>, r: Result<(), AsyncRuntimeError>| #[trigger]
        call_ensures(TaskTracker::<K, R, N>::register, (tracker, reason), r)
            && tracker.wf() implies lookup(final(tracker).tasks(), other) == if key_eq(
        reason,
        other,
    ) && !(lookup(tracker.tasks(), reason) is Some) && !(tracker.tasks().len() == N) {
        Some(None)
    } else {
        lookup(tracker.tasks(), other)
    } by {
        let tasks = tracker.tasks();
        if !has_key(tasks, reason) && tasks.len() < N {
            lemma_lookup_inserted(tasks, reason, None::<R>, other);
        }
    }
}

/// Whatever has a task after registrations had one before, or is one of the chosen reasons: then it
/// waits for its response.
pub proof fn lemma_only_chosen_registered<K: Ord, R>(
    tasks: Seq<(K, Option<R>)>,
    pending: Seq<(K, usize)>,
    chosen: Seq<bool>,
    max: usize,
    reason: K,
)
    requires
        obeys_order::<K>(),
        sorted(tasks),
        pending.len() <= chosen.len(),
    ensures
        has_key(registered_all(tasks, pending, chosen, max), reason) ==> has_key(tasks, reason)
            || exists|i: int|
            0 <= i < pending.len() && chosen[i] && key_eq((#[trigger] pending[i]).0, reason),
        has_key(registered_all(tasks, pending, chosen, max), reason) && !has_key(tasks, reason)
            ==> lookup(registered_all(tasks, pending, chosen, max), reason) == Some(None::<R>),
    decreases pending.len(),
{
    if pending.len() > 0 {
        let front = pending.drop_last();
        let before = registered_all(tasks, front, chosen, max);
        let last = pending.len() - 1;
        lemma_only_chosen_registered(tasks, front, chosen, max, reason);
        lemma_registrations_keep(tasks, front, chosen, max, reason);
        if has_key(before, reason) && !has_key(tasks, reason) {
            let i = choose|i: int|
                0 <= i < front.len() && chosen[i] && key_eq((#[trigger] front[i]).0, reason);
            assert(pending[i] == front[i]);
        }
        let own = pending[last].0;
        assert(own == pending.last().0);
        if chosen[last] && !has_key(before, own) && before.len() < max {
            lemma_lookup_inserted(before, own, None::<R>, reason);
            lemma_inserted_sorted(before, own, None::<R>);
        }
    }
}

/// Registrations never make the tasks fewer, and one that found no room left none.
proof fn lemma_registrations_fill<K: Ord, R>(
    tasks: Seq<(K, Option<R>)>,
    pending: Seq<(K, usize)>,
    chosen: Seq<bool>,
    max: usize,
)
    requires
        obeys_order::<K>(),
        sorted(tasks),
        pending.len() <= chosen.len(),
    ensures
        registered_all(tasks, pending, chosen, max).len() >= tasks.len(),
        !all_fit(tasks, pending, chosen, max) ==> {
            &&& registered_all(tasks, pending, chosen, max).len() >= max
            &&& exists|i: int|
                #![trigger pending[i]]
                0 <= i < pending.len() && chosen[i] && !has_key(
                    registered_all(tasks, pending, chosen, max),
                    pending[i].0,
                )
        },
    decreases pending.len(),
{
    if pending.len() > 0 {
        let front = pending.drop_last();
        let before = registered_all(tasks, front, chosen, max);
        let now = registered_all(tasks, pending, chosen, max);
        let last = pending.len() - 1;
        let own = pending.last().0;
        lemma_registrations_fill(tasks, front, chosen, max);
        lemma_registrations_keep(tasks, front, chosen, max, own);
        if chosen[last] && !has_key(before, own) && before.len() < max {
            lemma_inserted_sorted(before, own, None::<R>);
        }
        if !all_fit(tasks, pending, chosen, max) {
            if !all_fit(tasks, front, chosen, max) {
                let i = choose|i: int|
                    #![trigger front[i]]
                    0 <= i < front.len() && chosen[i] && !has_key(before, front[i].0);
                assert(pending[i] == front[i]);
                assert(now == before);
            } else {
                assert(pending[last].0 == own);
                assert(now == before);
            }
        }
    }
}

/// If the condition is `wanted`, exactly the pending reasons that are wanted get a task, as far as
/// there is room: whatever has a task afterwards had one before, or is pending and wanted. The
/// tasks from before are kept as they were, the new ones wait for their responses. The result says
/// whether every pending reason that is wanted has its task; if not, no place is left.
pub proof fn lemma_wanted_registered<
    K: Copy + Eq + Ord,
    R: PartialEq,
    const N: usize,
    F: Fn(&K) -> bool,
>(runtime: AsyncRuntime<K, R, N>, match_fn: F, wanted: spec_fn(K) -> bool, other: K)
    requires
        obeys_order::<K>(),
        runtime.wf(),
        forall|reason: K, b: bool| #[trigger]
            call_ensures(match_fn, (&reason,), b) ==> b == wanted(reason),
    ensures
        forall|tracker: &mut TaskTracker<K, R, N>, r: Result<(), AsyncRuntimeError>| #[trigger]
            call_ensures(TaskTracker::<K, R, N>::register_if, (tracker, &runtime, match_fn), r)
                && tracker.wf() ==> {
                let tasks = tracker.tasks();
                let now = final(tracker).tasks();
                let pending = runtime.pending();
                &&& final(tracker).wf()
                &&& lookup(tasks, other) is Some ==> lookup(now, other) == lookup(tasks, other)
                &&& lookup(tasks, other) is None && lookup(now, other) is Some ==> {
                    &&& lookup(now, other) == Some(None::<R>)
                    &&& exists|i: int|
                        0 <= i < pending.len() && wanted(pending[i].0) && key_eq(
                            (#[trigger] pending[i]).0,
                            other,
                        )
                }
                &&& r is Ok <==> forall|i: int|
                    0 <= i < pending.len() && wanted((#[trigger] pending[i]).0) ==> has_key(
                        now,
                        pending[i].0,
                    )
                &&& r is Err ==> r == Err::<(), AsyncRuntimeError>(
                    AsyncRuntimeError::TooManyPending,
                ) && now.len() == N
            },
{
    assert forall|tracker: &mut TaskTracker<K, R, N>, r: Result<(), AsyncRuntimeError>| #[trigger]
        call_ensures(TaskTracker::<K, R, N>::register_if, (tracker, &runtime, match_fn), r)
            && tracker.wf() implies {
        let tasks = tracker.tasks();
        let now = final(tracker).tasks();
        let pending = runtime.pending();
        &&& lookup(tasks, other) is Some ==> lookup(now, other) == lookup(tasks, other)
        &&& lookup(tasks, other) is None && lookup(now, other) is Some ==> {
            &&& lookup(now, other) == Some(None::<R>)
            &&& exists|i: int|
                0 <= i < pending.len() && wanted(pending[i].0) && key_eq(
                    (#[trigger] pending[i]).0,
                    other,
                )
        }
        &&& r is Ok <==> forall|i: int|
            0 <= i < pending.len() && wanted((#[trigger] pending[i]).0) ==> has_key(
                now,
                pending[i].0,
            )
        &&& r is Err ==> r == Err::<(), AsyncRuntimeError>(AsyncRuntimeError::TooManyPending)
            && now.len() == N
    } by {
        let tasks = tracker.tasks();
        let now = final(tracker).tasks();
        let pending = runtime.pending();
        let chosen = choose|chosen: Seq<bool>|
            {
                &&& #[trigger] chosen_by(match_fn, pending, chosen)
                &&& now == registered_all(tasks, pending, chosen, N)
                &&& r == if all_fit(tasks, pending, chosen, N) {
                    Ok::<(), AsyncRuntimeError>(())
                } else {
                    Err(AsyncRuntimeError::TooManyPending)
                }
            };
        assert forall|i: int| 0 <= i < pending.len() implies chosen[i] == wanted(
            (#[trigger] pending[i]).0,
        ) by {
            assert(call_ensures(match_fn, (&pending[i].0,), chosen[i]));
        }
        lemma_registrations_keep(tasks, pending, chosen, N, other);
        lemma_only_chosen_registered(tasks, pending, chosen, N, other);
        lemma_registrations_fill(tasks, pending, chosen, N);
        if has_key(now, other) && !has_key(tasks, other) {
            let i = choose|i: int|
                0 <= i < pending.len() && chosen[i] && key_eq((#[trigger] pending[i]).0, other);
            assert(wanted(pending[i].0));
        }
        if all_fit(tasks, pending, chosen, N) {
            assert forall|i: int| 0 <= i < pending.len() && wanted((#[trigger] pending[i]).0) implies has_key(
                now,
                pending[i].0,
            ) by {
                lemma_chosen_registered(tasks, pending, chosen, N, i);
            }
        } else {
            let i = choose|i: int|
                #![trigger pending[i]]
                0 <= i < pending.len() && chosen[i] && !has_key(now, pending[i].0);
            assert(wanted(pending[i].0));
        }
    }
}

/// The error that is reported is the last one: nothing after it has failed.
pub proof fn lemma_last_error_reported<T, E>(results: Seq<Result<T, E>>)
    ensures
        last_error(results) is Ok <==> (forall|i: int|
            0 <= i < results.len() ==> #[trigger] results[i] is Ok),
        last_error(results) matches Err(e) ==> exists|i: int|
            #![trigger results[i]]
            {
                &&& 0 <= i < results.len()
                &&& results[i] == Err::<T, E>(e)
                &&& forall|j: int| i < j < results.len() ==> #[trigger] results[j] is Ok
            },
    decreases results.len(),
{
    lemma_no_error(results);
    if results.len() > 0 {
        let last = results.len() - 1;
        let front = results.drop_last();
        assert(results[last] == results.last());
        lemma_last_error_reported(front);
        if results.last() is Ok && last_error(results) is Err {
            let i = choose|i: int|
                #![trigger front[i]]
                {
                    &&& 0 <= i < front.len()
                    &&& front[i] == Err::<T, E>(last_error(front)->Err_0)
                    &&& forall|j: int| i < j < front.len() ==> #[trigger] front[j] is Ok
                };
            assert(results[i] == front[i]);
            assert forall|j: int| i < j < results.len() implies #[trigger] results[j] is Ok by {
                if j < last {
                    assert(front[j] is Ok);
                    assert(results[j] == front[j]);
                }
            }
        }
    }
}

/// If the worker's answers are `outcome`, every task gets the response to its own reason, or stays
/// as it is where the worker fails. The whole fails exactly if any task does, with the error of the
/// last that does.
pub proof fn lemma_every_task_worked<
    K: Copy + Eq + Ord,
    R: PartialEq,
    const N: usize,
    E,
    F: Fn(K) -> Result<R, E>,
>(worker_fn: F, outcome: spec_fn(K) -> Result<R, E>, i: int)
    requires
        forall|reason: K, result: Result<R, E>| #[trigger]
            call_ensures(worker_fn, (reason,), result) ==> result == outcome(reason),
    ensures
        forall|tracker: &mut TaskTracker<K, R, N>, r: Result<(), E>| #[trigger]
            call_ensures(TaskTracker::<K, R, N>::work::<E>, (tracker, worker_fn), r) ==> {
                let tasks = tracker.tasks();
                let now = final(tracker).tasks();
                &&& final(tracker).wf()
                &&& now.len() == tasks.len()
                &&& 0 <= i < tasks.len() ==> {
                    &&& now[i].0 == tasks[i].0
                    &&& outcome(tasks[i].0) matches Ok(response) ==> now[i].1 == Some(response)
                    &&& outcome(tasks[i].0) is Err ==> now[i].1 == tasks[i].1
                }
                &&& r is Ok <==> forall|j: int|
                    0 <= j < tasks.len() ==> outcome((#[trigger] tasks[j]).0) is Ok
                &&& r matches Err(e) ==> exists|j: int|
                    #![trigger tasks[j]]
                    {
                        &&& 0 <= j < tasks.len()
                        &&& outcome(tasks[j].0) == Err::<R, E>(e)
                        &&& forall|k: int|
                            j < k < tasks.len() ==> outcome((#[trigger] tasks[k]).0) is Ok
                    }
            },
{
    assert forall|tracker: &mut TaskTracker<K, R, N>, r: Result<(), E>| #[trigger]
        call_ensures(TaskTracker::<K, R, N>::work::<E>, (tracker, worker_fn), r) implies {
        let tasks = tracker.tasks();
        let now = final(tracker).tasks();
        &&& now.len() == tasks.len()
        &&& 0 <= i < tasks.len() ==> {
            &&& now[i].0 == tasks[i].0
            &&& outcome(tasks[i].0) matches Ok(response) ==> now[i].1 == Some(response)
            &&& outcome(tasks[i].0) is Err ==> now[i].1 == tasks[i].1
        }
        &&& r is Ok <==> forall|j: int|
            0 <= j < tasks.len() ==> outcome((#[trigger] tasks[j]).0) is Ok
        &&& r matches Err(e) ==> exists|j: int|
            #![trigger tasks[j]]
            {
                &&& 0 <= j < tasks.len()
                &&& outcome(tasks[j].0) == Err::<R, E>(e)
                &&& forall|k: int| j < k < tasks.len() ==> outcome((#[trigger] tasks[k]).0) is Ok
            }
    } by {
        let tasks = tracker.tasks();
        let results = choose|results: Seq<Result<R, E>>|
            {
                &&& #[trigger] worked_by(worker_fn, tasks, results)
                &&& final(tracker).tasks() == answered(tasks, results)
                &&& r == last_error(results)
            };
        assert forall|j: int| 0 <= j < tasks.len() implies results[j] == outcome(
            (#[trigger] tasks[j]).0,
        ) by {
            assert(call_ensures(worker_fn, (tasks[j].0,), results[j]));
        }
        lemma_last_error_reported(results);
        if r is Ok {
            assert forall|j: int| 0 <= j < tasks.len() implies outcome(
                (#[trigger] tasks[j]).0,
            ) is Ok by {
                assert(results[j] is Ok);
            }
        } else {
            let e = r->Err_0;
            let j = choose|j: int|
                #![trigger results[j]]
                {
                    &&& 0 <= j < results.len()
                    &&& results[j] == Err::<R, E>(e)
                    &&& forall|k: int| j < k < results.len() ==> #[trigger] results[k] is Ok
                };
            assert(outcome(tasks[j].0) == Err::<R, E>(e));
            assert forall|k: int| j < k < tasks.len() implies outcome(
                (#[trigger] tasks[k]).0,
            ) is Ok by {
                assert(results[k] is Ok);
            }
        }
    }
}

/// A batch holds consecutive slots: the next `size` of them, or what is left. Its element `k` is
/// the `k`-th slot behind those of the batches before.
pub proof fn lemma_batch_holds_slots<T>(slots: Seq<T>, c: int, size: int, end: int, k: int)
    requires
        size > 0,
        0 <= end <= slots.len(),
        0 <= c,
        c * size < end,
    ensures
        batch_of(slots, c, size, end).len() == if c * size + size <= end {
            size
        } else {
            end - c * size
        },
        0 <= k < batch_of(slots, c, size, end).len() ==> batch_of(slots, c, size, end)[k]
            == slots[c * size + k],
{
    assert((c + 1) * size == c * size + size) by (nonlinear_arith);
    assert(0 <= c * size) by (nonlinear_arith)
        requires
            0 <= c,
            size > 0,
    ;
}

/// The batches, one after the other, hold all the slots in use: each is in one of them, at the
/// place that its index gives it.
pub proof fn lemma_slot_in_its_batch<T>(slots: Seq<T>, size: int, end: int, i: int)
    requires
        size > 0,
        0 <= i < end <= slots.len(),
    ensures
        is_batch(i / size, size, end),
        0 <= i % size < batch_of(slots, i / size, size, end).len(),
        batch_of(slots, i / size, size, end)[i % size] == slots[i],
{
    let c = i / size;
    lemma_fundamental_div_mod(i, size);
    lemma_one_batch_each(i, size, end, c);
    assert(size * c == c * size) by (nonlinear_arith);
    assert(0 <= i % size < size) by (nonlinear_arith)
        requires
            size > 0,
    ;
    lemma_batch_holds_slots(slots, c, size, end, i % size);
}

/// There are as many batches as it takes, and no more.
proof fn lemma_batches_enough(n: int, size: int, end: int, i: int)
    requires
        size > 0,
        0 <= i < end,
        is_batch_count(n, size, end),
    ensures
        0 <= i / size < n,
{
    lemma_one_batch_each(i, size, end, i / size);
    let c = i / size;
    if c >= n {
        assert(n * size <= c * size) by (nonlinear_arith)
            requires
                n <= c,
                size > 0,
        ;
    }
}

/// The worker gets every batch once and in order, and nothing else: the batch `c` is the run of
/// slots that starts behind `c` full batches, and what the worker makes of its elements is what is
/// found in those slots afterwards. The whole fails exactly if the worker does for some batch.
pub proof fn lemma_worker_gets_batches<
    K: Copy + Eq + Ord,
    R: PartialEq,
    const N: usize,
    E,
    F: Fn(&mut TaskBatch<K, R>) -> Result<(), E>,
>(batch_size: usize, worker_fn: F)
    requires
        batch_size > 0,
    ensures
        forall|tracker: &mut TaskTracker<K, R, N>, r: Result<(), E>| #[trigger]
            call_ensures(
                TaskTracker::<K, R, N>::work_in_batches::<E>,
                (tracker, batch_size, worker_fn),
                r,
            ) && tracker.wf() ==> {
                let size = batch_size as int;
                let end = tracker.tasks().len() as int;
                let slots = tracker.table().slots();
                let now = final(tracker).table().slots();
                &&& final(tracker).tasks().len() == end
                &&& forall|i: int| end <= i < N ==> #[trigger] now[i] is None
                &&& exists|results: Seq<Result<(), E>>|
                    {
                        &&& #[trigger] covers(results.len() as int, size, end)
                        &&& forall|c: int| #[trigger]
                            below(c, results.len() as int) ==> exists|y: &mut TaskBatch<K, R>|
                                {
                                    &&& #[trigger] call_ensures(worker_fn, (y,), results[c])
                                    &&& is_run(y@, slots, c * size, size, end)
                                    &&& is_run(final(y)@, now, c * size, size, end)
                                }
                        &&& r is Ok <==> forall|c: int|
                            0 <= c < results.len() ==> #[trigger] results[c] is Ok
                    }
            },
{
    assert forall|tracker: &mut TaskTracker<K, R, N>, r: Result<(), E>| #[trigger]
        call_ensures(
            TaskTracker::<K, R, N>::work_in_batches::<E>,
            (tracker, batch_size, worker_fn),
            r,
        ) && tracker.wf() implies {
        let size = batch_size as int;
        let end = tracker.tasks().len() as int;
        let slots = tracker.table().slots();
        let now = final(tracker).table().slots();
        exists|results: Seq<Result<(), E>>|
            {
                &&& #[trigger] covers(results.len() as int, size, end)
                &&& forall|c: int| #[trigger]
                    below(c, results.len() as int) ==> exists|y: &mut TaskBatch<K, R>|
                        {
                            &&& #[trigger] call_ensures(worker_fn, (y,), results[c])
                            &&& is_run(y@, slots, c * size, size, end)
                            &&& is_run(final(y)@, now, c * size, size, end)
                        }
                &&& r is Ok <==> forall|c: int|
                    0 <= c < results.len() ==> #[trigger] results[c] is Ok
            }
    } by {
        let size = batch_size as int;
        let end = tracker.tasks().len() as int;
        let slots = tracker.table().slots();
        let now = final(tracker).table().slots();
        let results = choose|results: Seq<Result<(), E>>|
            {
                &&& #[trigger] is_batch_count(results.len() as int, size, end)
                &&& forall|c: int| #[trigger]
                    below(c, results.len() as int) ==> exists|y: &mut TaskBatch<K, R>|
                        {
                            &&& y@ == batch_of(slots, c, size, end)
                            &&& final(y)@ == batch_of(now, c, size, end)
                            &&& #[trigger] call_ensures(worker_fn, (y,), results[c])
                        }
                &&& r == last_error(results)
            };
        let n = results.len() as int;
        lemma_last_error_reported(results);
        assert(covers(n, size, end));
        assert forall|c: int| #[trigger] below(c, n) implies exists|y: &mut TaskBatch<K, R>|
            {
                &&& #[trigger] call_ensures(worker_fn, (y,), results[c])
                &&& is_run(y@, slots, c * size, size, end)
                &&& is_run(final(y)@, now, c * size, size, end)
            } by {
            assert(c * size < end) by {
                assert(c * size <= (n - 1) * size) by (nonlinear_arith)
                    requires
                        c <= n - 1,
                        size > 0,
                ;
            }
            lemma_batch_is_run(slots, c, size, end);
            lemma_batch_is_run(now, c, size, end);
            let y = choose|y: &mut TaskBatch<K, R>|
                {
                    &&& y@ == batch_of(slots, c, size, end)
                    &&& final(y)@ == batch_of(now, c, size, end)
                    &&& #[trigger] call_ensures(worker_fn, (y,), results[c])
                };
            assert(call_ensures(worker_fn, (y,), results[c]));
        }
    }
}

/// `n` batches of `size` are enough for `end` slots, and one less is not.
pub open spec fn covers(n: int, size: int, end: int) -> bool {
    &&& 0 <= n
    &&& n * size >= end
    &&& n > 0 ==> (n - 1) * size < end
}

/// `run` is what stands in the slots from `from` on: `size` of them, but none from `end` on.
pub open spec fn is_run<T>(run: Seq<T>, slots: Seq<T>, from: int, size: int, end: int) -> bool {
    &&& run.len() == if from + size <= end {
        size
    } else {
        end - from
    }
    &&& forall|k: int| 0 <= k < run.len() ==> #[trigger] run[k] == slots[from + k]
}

/// A batch is a run.
proof fn lemma_batch_is_run<T>(slots: Seq<T>, c: int, size: int, end: int)
    requires
        size > 0,
        0 <= end <= slots.len(),
        0 <= c,
        c * size < end,
    ensures
        is_run(batch_of(slots, c, size, end), slots, c * size, size, end),
{
    lemma_batch_holds_slots(slots, c, size, end, 0);
    assert forall|k: int| 0 <= k < batch_of(slots, c, size, end).len() implies #[trigger] batch_of(
        slots,
        c,
        size,
        end,
    )[k] == slots[c * size + k] by {
        lemma_batch_holds_slots(slots, c, size, end, k);
    }
}

/// Whatever the worker does to every element of the batches that it gets is done to every task.
pub proof fn lemma_batches_reach_every_task<
    K: Copy + Eq + Ord,
    R: PartialEq,
    const N: usize,
    E,
    F: Fn(&mut TaskBatch<K, R>) -> Result<(), E>,
>(
    batch_size: usize,
    worker_fn: F,
    related: spec_fn(Option<(K, Option<R>)>, Option<(K, Option<R>)>) -> bool,
    i: int,
)
    requires
        batch_size > 0,
        forall|y: &mut TaskBatch<K, R>, result: Result<(), E>| #[trigger]
            call_ensures(worker_fn, (y,), result) ==> forall|k: int|
                0 <= k < y@.len() ==> related(#[trigger] y@[k], final(y)@[k]),
    ensures
        forall|tracker: &mut TaskTracker<K, R, N>, r: Result<(), E>| #[trigger]
            call_ensures(
                TaskTracker::<K, R, N>::work_in_batches::<E>,
                (tracker, batch_size, worker_fn),
                r,
            ) && tracker.wf() && 0 <= i < tracker.tasks().len() ==> related(
                Some(tracker.tasks()[i]),
                final(tracker).table().slots()[i],
            ),
{
    assert forall|tracker: &mut TaskTracker<K, R, N>, r: Result<(), E>| #[trigger]
        call_ensures(
            TaskTracker::<K, R, N>::work_in_batches::<E>,
            (tracker, batch_size, worker_fn),
            r,
        ) && tracker.wf() && 0 <= i < tracker.tasks().len() implies related(
        Some(tracker.tasks()[i]),
        final(tracker).table().slots()[i],
    ) by {
        let size = batch_size as int;
        let end = tracker.tasks().len() as int;
        let slots = tracker.table().slots();
        let now = final(tracker).table().slots();
        let results = choose|results: Seq<Result<(), E>>|
            {
                &&& #[trigger] is_batch_count(results.len() as int, size, end)
                &&& forall|c: int| #[trigger]
                    below(c, results.len() as int) ==> exists|y: &mut TaskBatch<K, R>|
                        {
                            &&& y@ == batch_of(slots, c, size, end)
                            &&& final(y)@ == batch_of(now, c, size, end)
                            &&& #[trigger] call_ensures(worker_fn, (y,), results[c])
                        }
                &&& r == last_error(results)
            };
        let c = i / size;
        lemma_batches_enough(results.len() as int, size, end, i);
        lemma_slot_in_its_batch(slots, size, end, i);
        lemma_slot_in_its_batch(now, size, end, i);
        assert(below(c, results.len() as int));
        let y = choose|y: &mut TaskBatch<K, R>|
            {
                &&& y@ == batch_of(slots, c, size, end)
                &&& final(y)@ == batch_of(now, c, size, end)
                &&& #[trigger] call_ensures(worker_fn, (y,), results[c])
            };
        assert(related(y@[i % size], final(y)@[i % size]));
        assert(slots[i] is Some);
    }
}

} // verus!
