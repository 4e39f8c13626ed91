//! Bookkeeping of the tasks that are handed to a worker outside the state machine.
use vstd::arithmetic::div_mod::lemma_fundamental_div_mod;
use vstd::prelude::*;

use crate::common::{below, AsyncRuntimeError, FixedSizedMap};
use crate::entries::{
    has_key, inserted, key_at, lemma_inserted_sorted, lemma_key_at_rank, lemma_lookup_inserted,
    lemma_lookup_joined, lemma_lookup_removed, lemma_rank_eq, lemma_removed_sorted, lookup, rank,
    removed, sorted,
};
use crate::futures::{first_chosen, AsyncRuntime};
use crate::order::{key_eq, key_lt, obeys_order};

verus! {

/// A run of consecutive tasks: what a worker for `TaskTracker::work_in_batches` gets.
pub type TaskBatch<YieldReason, YieldResponse> = [Option<(YieldReason, Option<YieldResponse>)>];

/// The tasks without those whose reason is no longer pending.
pub open spec fn still_wanted<K: Ord, R>(
    tasks: Seq<(K, Option<R>)>,
    pending: Seq<(K, usize)>,
) -> Seq<(K, Option<R>)> {
    tasks.filter(|e: (K, Option<R>)| has_key(pending, e.0))
}

/// The task for `reason` has its response.
pub open spec fn complete<K: Ord, R>(tasks: Seq<(K, Option<R>)>, reason: K) -> bool {
    lookup(tasks, reason) matches Some(Some(_))
}

/// The reason at `i` is the first of the pending ones whose task is complete.
pub open spec fn first_complete<K: Ord, R>(
    tasks: Seq<(K, Option<R>)>,
    pending: Seq<(K, usize)>,
    i: int,
) -> bool {
    &&& 0 <= i < pending.len()
    &&& complete(tasks, pending[i].0)
    &&& forall|j: int| 0 <= j < i ==> !complete(tasks, (#[trigger] pending[j]).0)
}

/// None of the pending reasons has a complete task.
pub open spec fn none_complete<K: Ord, R>(
    tasks: Seq<(K, Option<R>)>,
    pending: Seq<(K, usize)>,
) -> bool {
    forall|j: int| 0 <= j < pending.len() ==> !complete(tasks, (#[trigger] pending[j]).0)
}

/// A tracker with `max` places can hold a task for `reason`.
pub open spec fn fits<K: Ord, R>(tasks: Seq<(K, Option<R>)>, reason: K, max: usize) -> bool {
    has_key(tasks, reason) || tasks.len() < max
}

/// The tasks with one for `reason`, if there is room for it.
pub open spec fn registered<K: Ord, R>(
    tasks: Seq<(K, Option<R>)>,
    reason: K,
    max: usize,
) -> Seq<(K, Option<R>)> {
    if has_key(tasks, reason) || !fits(tasks, reason, max) {
        tasks
    } else {
        inserted(tasks, reason, None)
    }
}

/// The tasks after one was registered, in the order of `pending`, for each reason that `chosen`
/// holds true for.
pub open spec fn registered_all<K: Ord, R>(
    tasks: Seq<(K, Option<R>)>,
    pending: Seq<(K, usize)>,
    chosen: Seq<bool>,
    max: usize,
) -> Seq<(K, Option<R>)>
    decreases pending.len(),
{
    if pending.len() == 0 {
        tasks
    } else {
        let before = registered_all(tasks, pending.drop_last(), chosen, max);
        if chosen[pending.len() - 1] {
            registered(before, pending.last().0, max)
        } else {
            before
        }
    }
}

/// There was room for every one of these tasks.
pub open spec fn all_fit<K: Ord, R>(
    tasks: Seq<(K, Option<R>)>,
    pending: Seq<(K, usize)>,
    chosen: Seq<bool>,
    max: usize,
) -> bool
    decreases pending.len(),
{
    pending.len() == 0 || {
        &&& all_fit(tasks, pending.drop_last(), chosen, max)
        &&& chosen[pending.len() - 1] ==> fits(
            registered_all(tasks, pending.drop_last(), chosen, max),
            pending.last().0,
            max,
        )
    }
}

/// `chosen` is what `match_fn` answered for each of the pending reasons.
pub open spec fn chosen_by<K, F: Fn(&K) -> bool>(
    match_fn: F,
    pending: Seq<(K, usize)>,
    chosen: Seq<bool>,
) -> bool {
    &&& chosen.len() == pending.len()
    &&& forall|i: int|
        0 <= i < pending.len() ==> call_ensures(match_fn, (&(#[trigger] pending[i]).0,), chosen[i])
}

/// `results` is what `worker_fn` returned for each of the tasks.
pub open spec fn worked_by<K, R, E, F: Fn(K) -> Result<R, E>>(
    worker_fn: F,
    tasks: Seq<(K, Option<R>)>,
    results: Seq<Result<R, E>>,
) -> bool {
    &&& results.len() == tasks.len()
    &&& forall|i: int|
        0 <= i < tasks.len() ==> call_ensures(worker_fn, ((#[trigger] tasks[i]).0,), results[i])
}

/// The tasks with the responses that came in. Where the worker failed the task stays as it was.
pub open spec fn answered<K, R, E>(
    tasks: Seq<(K, Option<R>)>,
    results: Seq<Result<R, E>>,
) -> Seq<(K, Option<R>)> {
    Seq::new(
        tasks.len(),
        |i: int|
            match results[i] {
                Ok(response) => (tasks[i].0, Some(response)),
                Err(_) => tasks[i],
            },
    )
}

/// The last of the errors, if there is one.
pub open spec fn last_error<T, E>(results: Seq<Result<T, E>>) -> Result<(), E>
    decreases results.len(),
{
    if results.len() == 0 {
        Ok(())
    } else {
        match results.last() {
            Err(e) => Err(e),
            Ok(_) => last_error(results.drop_last()),
        }
    }
}

/// There is a batch with the number `c`, if `end` slots are dealt out in batches of `size`.
pub open spec fn is_batch(c: int, size: int, end: int) -> bool {
    0 <= c && c * size < end
}

/// Where the batch with the number `c` ends, if `end` slots are dealt out in batches of `size`.
pub open spec fn batch_end(c: int, size: int, end: int) -> int {
    if (c + 1) * size < end {
        (c + 1) * size
    } else {
        end
    }
}

/// The batch with the number `c`.
pub open spec fn batch_of<T>(slots: Seq<T>, c: int, size: int, end: int) -> Seq<T> {
    slots.subrange(c * size, batch_end(c, size, end))
}

/// `end` slots make `n` batches of `size`.
pub open spec fn is_batch_count(n: int, size: int, end: int) -> bool {
    &&& 0 <= n
    &&& !is_batch(n, size, end)
    &&& n > 0 ==> is_batch(n - 1, size, end)
}

/// Tracks tasks that are handed to a worker, so that what blocks them does not block the machine.
///
/// 1. `sync` keeps the tracker and the runtime in step. It unblocks the futures of the tasks that
///    are complete, one for each step of the machine.
/// 2. `register_if` takes up the pending reasons that the worker can deal with.
/// 3. The worker runs `work` or `work_in_batches`, and then hands the tracker back.
#[derive(Debug)]
pub struct TaskTracker<
    YieldReason: Copy + Eq + Ord,
    YieldResponse: PartialEq,
    const MAX_PENDING: usize,
> {
    tasks: FixedSizedMap<YieldReason, Option<YieldResponse>, MAX_PENDING>,
}

impl<
    YieldReason: Copy + Eq + Ord,
    YieldResponse: PartialEq,
    const MAX_PENDING: usize,
> TaskTracker<YieldReason, YieldResponse, MAX_PENDING> {
    /// The table of the tasks.
    pub closed spec fn table(&self) -> FixedSizedMap<
        YieldReason,
        Option<YieldResponse>,
        MAX_PENDING,
    > {
        self.tasks
    }

    /// The tasks in ascending order of their reasons, each with its response once it has one.
    pub open spec fn tasks(&self) -> Seq<(YieldReason, Option<YieldResponse>)> {
        self.table()@
    }

    /// What every operation relies on and keeps.
    pub open spec fn wf(&self) -> bool {
        self.table().wf()
    }

    /// A tracker without tasks.
    pub fn new() -> (r: Self)
        ensures
            r.wf(),
            r.tasks() == Seq::<(YieldReason, Option<YieldResponse>)>::empty(),
    {
        Self { tasks: FixedSizedMap::new() }
    }

    /// The number of tasks.
    pub fn len(&self) -> (r: usize)
        ensures
            r == self.tasks().len(),
    {
        self.tasks.len()
    }

    /// Whether there are no tasks.
    pub fn is_empty(&self) -> (r: bool)
        ensures
            r == (self.tasks().len() == 0),
    {
        self.tasks.len() == 0
    }

    /// Drops the tasks that nothing waits for any more, and unblocks a future whose task is
    /// complete.
    ///
    /// True means that both the runtime and the tracker are ready for new tasks. False means that
    /// a future has just been unblocked, so that the machine has to run a step, or that there are
    /// tasks left to be completed.
    pub fn sync(
        &mut self,
        runtime: &mut AsyncRuntime<YieldReason, YieldResponse, MAX_PENDING>,
    ) -> (r: Result<bool, AsyncRuntimeError>)
        requires
            obeys_order::<YieldReason>(),
            old(self).wf(),
            old(runtime).wf(),
            old(runtime).unblocked() is Some ==> none_complete(
                still_wanted(old(self).tasks(), old(runtime).pending()),
                old(runtime).pending(),
            ),
        ensures
            final(self).wf(),
            final(runtime).wf(),
            final(runtime).table() == old(runtime).table(),
            final(runtime).new_blockage() == old(runtime).new_blockage(),
            ({
                let pending = old(runtime).pending();
                let wanted = still_wanted(old(self).tasks(), pending);
                if none_complete(wanted, pending) {
                    &&& r == Ok::<bool, AsyncRuntimeError>(wanted.len() == 0)
                    &&& final(self).tasks() == wanted
                    &&& final(runtime).unblocked() == old(runtime).unblocked()
                } else {
                    &&& r == Ok::<bool, AsyncRuntimeError>(false)
                    &&& exists|i: int|
                        {
                            &&& #[trigger] first_complete(wanted, pending, i)
                            &&& final(self).tasks() == removed(wanted, pending[i].0)
                            &&& final(runtime).unblocked() == Some(
                                (pending[i].0, (lookup(wanted, pending[i].0)->0)->0),
                            )
                        }
                }
            }),
    {
        let ghost pending = runtime.pending();
        let ghost wanted = still_wanted(self.tasks(), pending);
        self.tasks.inner_join_keys(runtime.pending_futures());
        assert(self.tasks() == wanted);
        let tracker: &Self = &*self;
        let is_complete = |reason: YieldReason| -> (b: bool)
            requires obeys_order::<YieldReason>() && tracker.wf()
            ensures b == complete(tracker.tasks(), reason)
        { tracker.is_task_complete(&reason) };
        let completed_reason = runtime.check_pending_reasons(is_complete);
        if let Some(reason) = completed_reason {
            proof {
                let i = choose|i: int| #[trigger]
                    first_chosen(is_complete, pending, i) && reason == pending[i].0;
                assert(first_complete(wanted, pending, i));
            }
            match self.remove_completed(&reason) {
                Some(response) => {
                    runtime.unblock_futures(reason, response);
                },
                None => {},
            }
            return Ok(false);
        }
        assert(none_complete(wanted, pending));
        if !self.is_empty() {
            return Ok(false);
        }
        Ok(true)
    }

    /// Whether the task for `reason` has its response.
    pub fn is_task_complete(&self, reason: &YieldReason) -> (r: bool)
        requires
            obeys_order::<YieldReason>(),
            self.wf(),
        ensures
            r == complete(self.tasks(), *reason),
    {
        let answer = self.tasks.read(
            reason,
            |x: &Option<YieldResponse>| -> (b: bool) ensures b == x.is_some() { x.is_some() },
        );
        match answer {
            Some(b) => b,
            None => false,
        }
    }

    /// Removes the task for `reason` and returns its response.
    fn remove_completed(&mut self, reason: &YieldReason) -> (r: Option<YieldResponse>)
        requires
            obeys_order::<YieldReason>(),
            old(self).wf(),
        ensures
            final(self).wf(),
            final(self).tasks() == removed(old(self).tasks(), *reason),
            r == match lookup(old(self).tasks(), *reason) {
                Some(response) => response,
                None => None,
            },
    {
        match self.tasks.remove(reason) {
            Some(response) => response,
            None => None,
        }
    }

    /// Registers a new task.
    pub fn register(&mut self, reason: YieldReason) -> (r: Result<(), AsyncRuntimeError>)
        requires
            obeys_order::<YieldReason>(),
            old(self).wf(),
        ensures
            final(self).wf(),
            final(self).tasks() == registered(old(self).tasks(), reason, MAX_PENDING),
            r == if fits(old(self).tasks(), reason, MAX_PENDING) {
                Ok::<(), AsyncRuntimeError>(())
            } else {
                Err(AsyncRuntimeError::TooManyPending)
            },
    {
        match self.tasks.set_default(reason, None) {
            Ok(_) => Ok(()),
            Err(e) => Err(e),
        }
    }

    /// Registers a task for each of the pending reasons that `match_fn` answers true for. It goes
    /// through all of them, even if there is no room for some.
    pub fn register_if(
        &mut self,
        runtime: &AsyncRuntime<YieldReason, YieldResponse, MAX_PENDING>,
        match_fn: impl Fn(&YieldReason) -> bool,
    ) -> (r: Result<(), AsyncRuntimeError>)
        requires
            obeys_order::<YieldReason>(),
            old(self).wf(),
            runtime.wf(),
            forall|i: int|
                0 <= i < runtime.pending().len() ==> call_requires(
                    match_fn,
                    (&(#[trigger] runtime.pending()[i]).0,),
                ),
        ensures
            final(self).wf(),
            exists|chosen: Seq<bool>|
                {
                    &&& #[trigger] chosen_by(match_fn, runtime.pending(), chosen)
                    &&& final(self).tasks() == registered_all(
                        old(self).tasks(),
                        runtime.pending(),
                        chosen,
                        MAX_PENDING,
                    )
                    &&& r == if all_fit(
                        old(self).tasks(),
                        runtime.pending(),
                        chosen,
                        MAX_PENDING,
                    ) {
                        Ok::<(), AsyncRuntimeError>(())
                    } else {
                        Err(AsyncRuntimeError::TooManyPending)
                    }
                },
    {
        let ghost pending = runtime.pending();
        let ghost mut chosen: Seq<bool> = Seq::empty();
        let mut result: Result<(), AsyncRuntimeError> = Ok(());
        let len: usize = runtime.pending_futures().len();
        let mut i: usize = 0;
        while i < len
            invariant
                obeys_order::<YieldReason>(),
                self.wf(),
                runtime.wf(),
                pending == runtime.pending(),
                len == pending.len(),
                i <= len,
                forall|j: int|
                    0 <= j < pending.len() ==> call_requires(
                        match_fn,
                        (&(#[trigger] pending[j]).0,),
                    ),
                chosen.len() == i,
                forall|j: int|
                    0 <= j < i ==> call_ensures(
                        match_fn,
                        (&(#[trigger] pending[j]).0,),
                        chosen[j],
                    ),
                self.tasks() == registered_all(
                    old(self).tasks(),
                    pending.take(i as int),
                    chosen,
                    MAX_PENDING,
                ),
                result == if all_fit(
                    old(self).tasks(),
                    pending.take(i as int),
                    chosen,
                    MAX_PENDING,
                ) {
                    Ok::<(), AsyncRuntimeError>(())
                } else {
                    Err(AsyncRuntimeError::TooManyPending)
                },
            decreases len - i,
        {
            let reason: YieldReason = runtime.pending_futures().entry(i).0;
            let is_match = match_fn(&reason);
            proof {
                let longer = chosen.push(is_match);
                lemma_registered_all_agree(
                    old(self).tasks(),
                    pending.take(i as int),
                    chosen,
                    longer,
                    MAX_PENDING,
                );
                assert(pending.take(i + 1).drop_last() =~= pending.take(i as int));
                assert(pending.take(i + 1).last() == pending[i as int]);
                chosen = longer;
            }
            if is_match {
                match self.register(reason) {
                    Ok(_) => {},
                    Err(e) => {
                        result = Err(e);
                    },
                }
            }
            i += 1;
        }
        proof {
            assert(pending.take(len as int) =~= pending);
            assert(chosen_by(match_fn, pending, chosen));
        }
        result
    }

    /// Runs `worker_fn` once for each task.
    pub fn work<E>(
        &mut self,
        worker_fn: impl Fn(YieldReason) -> Result<YieldResponse, E>,
    ) -> (r: Result<(), E>)
        requires
            old(self).wf(),
            forall|i: int|
                0 <= i < old(self).tasks().len() ==> call_requires(
                    worker_fn,
                    ((#[trigger] old(self).tasks()[i]).0,),
                ),
        ensures
            final(self).wf(),
            exists|results: Seq<Result<YieldResponse, E>>|
                {
                    &&& #[trigger] worked_by(worker_fn, old(self).tasks(), results)
                    &&& final(self).tasks() == answered(old(self).tasks(), results)
                    &&& r == last_error(results)
                },
    {
        let ghost before = self.tasks();
        let ghost mut results: Seq<Result<YieldResponse, E>> = Seq::empty();
        let mut result: Result<(), E> = Ok(());
        let len: usize = self.tasks.len();
        let mut i: usize = 0;
        while i < len
            invariant
                before == old(self).tasks(),
                len == before.len(),
                self.table().packed(),
                self.tasks().len() == len,
                i <= len,
                forall|j: int|
                    0 <= j < before.len() ==> call_requires(worker_fn, ((#[trigger] before[j]).0,)),
                results.len() == i,
                forall|j: int|
                    0 <= j < i ==> call_ensures(
                        worker_fn,
                        ((#[trigger] before[j]).0,),
                        results[j],
                    ),
                forall|j: int|
                    0 <= j < i ==> #[trigger] self.tasks()[j] == answered(before, results)[j],
                forall|j: int| i <= j < len ==> #[trigger] self.tasks()[j] == before[j],
                result == last_error(results),
            decreases len - i,
        {
            let ghost prev = self.tasks();
            let ghost prev_results = results;
            assert(self.tasks()[i as int] == before[i as int]);
            let reason: YieldReason = self.tasks.entry(i).0;
            let outcome = worker_fn(reason);
            proof {
                results = results.push(outcome);
                assert(results.drop_last() =~= prev_results);
            }
            match outcome {
                Ok(response) => {
                    self.tasks.put(i, Some(response));
                },
                Err(e) => {
                    result = Err(e);
                },
            }
            assert(forall|j: int|
                0 <= j < len && j != i ==> #[trigger] self.tasks()[j] == prev[j]);
            assert(forall|j: int|
                0 <= j < i ==> #[trigger] answered(before, results)[j] == answered(
                    before,
                    prev_results,
                )[j]);
            i += 1;
        }
        proof {
            assert(worked_by(worker_fn, before, results));
            assert(self.tasks() =~= answered(before, results));
            assert forall|a: int, b: int| 0 <= a < b < self.tasks().len() implies key_lt(
                #[trigger] self.tasks()[a].0,
                #[trigger] self.tasks()[b].0,
            ) by {
                assert(self.tasks()[a].0 == before[a].0);
                assert(self.tasks()[b].0 == before[b].0);
            }
        }
        result
    }

    /// Runs `worker_fn` once for each batch of tasks, all of `batch_size` but for the last, which
    /// may be smaller.
    ///
    /// The worker is meant to fill in responses. As long as it takes no task out and keeps the
    /// reasons, the tracker stays well-formed.
    pub fn work_in_batches<E>(
        &mut self,
        batch_size: usize,
        worker_fn: impl Fn(&mut TaskBatch<YieldReason, YieldResponse>) -> Result<(), E>,
    ) -> (r: Result<(), E>)
        requires
            batch_size > 0,
            old(self).wf(),
            forall|y: &mut TaskBatch<YieldReason, YieldResponse>, c: int|
                #![trigger
                    call_requires(worker_fn, (y,)),
                    is_batch(c, batch_size as int, old(self).tasks().len() as int)
                ]
                is_batch(c, batch_size as int, old(self).tasks().len() as int) && y@ == batch_of(
                    old(self).table().slots(),
                    c,
                    batch_size as int,
                    old(self).tasks().len() as int,
                ) ==> call_requires(worker_fn, (y,)),
        ensures
            final(self).table().count() == old(self).table().count(),
            final(self).table().slots().len() == MAX_PENDING,
            forall|i: int|
                old(self).tasks().len() <= i < MAX_PENDING
                    ==> #[trigger] final(self).table().slots()[i] is None,
            exists|results: Seq<Result<(), E>>|
                {
                    &&& #[trigger] is_batch_count(
                        results.len() as int,
                        batch_size as int,
                        old(self).tasks().len() as int,
                    )
                    &&& forall|c: int| #[trigger]
                        below(c, results.len() as int) ==> exists|
                            y: &mut TaskBatch<YieldReason, YieldResponse>,
                        |
                            {
                                &&& y@ == batch_of(
                                    old(self).table().slots(),
                                    c,
                                    batch_size as int,
                                    old(self).tasks().len() as int,
                                )
                                &&& final(y)@ == batch_of(
                                    final(self).table().slots(),
                                    c,
                                    batch_size as int,
                                    old(self).tasks().len() as int,
                                )
                                &&& #[trigger] call_ensures(worker_fn, (y,), results[c])
                            }
                    &&& r == last_error(results)
                },
            (forall|i: int| #![trigger final(self).table().slots()[i]]
                0 <= i < old(self).tasks().len() ==> {
                    &&& final(self).table().slots()[i] is Some
                    &&& (final(self).table().slots()[i]->0).0 == old(self).tasks()[i].0
                }) ==> final(self).wf(),
    {
        let ghost before = self.table().slots();
        let ghost mut results: Seq<Result<(), E>> = Seq::empty();
        let ghost size = batch_size as int;
        let mut result: Result<(), E> = Ok(());
        let end: usize = self.tasks.len();
        let mut start: usize = 0;
        assert(end == old(self).tasks().len());
        while start < end
            invariant
                size == batch_size,
                size > 0,
                before == old(self).table().slots(),
                before.len() == MAX_PENDING,
                end <= MAX_PENDING,
                self.table().count() == old(self).table().count(),
                self.table().slots().len() == MAX_PENDING,
                results.len() > 0 ==> is_batch(results.len() - 1, size, end as int),
                start == if results.len() * size < end {
                    results.len() * size
                } else {
                    end as int
                },
                forall|y: &mut TaskBatch<YieldReason, YieldResponse>, c: int|
                    #![trigger call_requires(worker_fn, (y,)), is_batch(c, size, end as int)]
                    is_batch(c, size, end as int) && y@ == batch_of(before, c, size, end as int)
                        ==> call_requires(worker_fn, (y,)),
                forall|c: int| #[trigger]
                    below(c, results.len() as int) ==> exists|
                        y: &mut TaskBatch<YieldReason, YieldResponse>,
                    |
                        {
                            &&& y@ == batch_of(before, c, size, end as int)
                            &&& final(y)@ == batch_of(self.table().slots(), c, size, end as int)
                            &&& #[trigger] call_ensures(worker_fn, (y,), results[c])
                        },
                forall|i: int|
                    start <= i < MAX_PENDING ==> #[trigger] self.table().slots()[i] == before[i],
                result == last_error(results),
            decreases end - start,
        {
            let len: usize = if end - start < batch_size {
                end - start
            } else {
                batch_size
            };
            let ghost n = results.len() as int;
            let ghost prev = self.table().slots();
            let ghost prev_results = results;
            assert((n + 1) * size == n * size + size) by (nonlinear_arith);
            assert(is_batch(n, size, end as int));
            assert(prev.subrange(start as int, start + len) =~= batch_of(
                before,
                n,
                size,
                end as int,
            ));
            let outcome = self.tasks.edit_slots(start, len, &worker_fn);
            start += len;
            proof {
                let now = self.table().slots();
                results = results.push(outcome);
                assert(results.drop_last() =~= prev_results);
                assert forall|c: int| #[trigger] below(c, n) implies batch_of(
                    now,
                    c,
                    size,
                    end as int,
                ) == batch_of(prev, c, size, end as int) by {
                    assert(0 <= c * size <= (c + 1) * size <= n * size) by (nonlinear_arith)
                        requires
                            0 <= c < n,
                            size > 0,
                    ;
                    assert(batch_of(now, c, size, end as int) =~= batch_of(
                        prev,
                        c,
                        size,
                        end as int,
                    ));
                }
                assert forall|c: int| #[trigger] below(c, n + 1) implies exists|
                    y: &mut TaskBatch<YieldReason, YieldResponse>,
                |
                    {
                        &&& y@ == batch_of(before, c, size, end as int)
                        &&& final(y)@ == batch_of(now, c, size, end as int)
                        &&& #[trigger] call_ensures(worker_fn, (y,), results[c])
                    } by {
                    if c < n {
                        assert(below(c, n));
                        assert(results[c] == prev_results[c]);
                    } else {
                        assert(results[c] == outcome);
                    }
                }
            }
            match outcome {
                Ok(_) => {},
                Err(e) => {
                    result = Err(e);
                },
            }
        }
        assert(is_batch_count(results.len() as int, size, end as int));
        proof {
            if forall|i: int| #![trigger self.table().slots()[i]]
                0 <= i < end ==> self.table().slots()[i] is Some && (self.table().slots()[i]->0).0
                    == old(self).tasks()[i].0 {
                assert forall|a: int, b: int| 0 <= a < b < self.tasks().len() implies key_lt(
                    #[trigger] self.tasks()[a].0,
                    #[trigger] self.tasks()[b].0,
                ) by {
                    assert(self.table().slots()[a] is Some);
                    assert(self.table().slots()[b] is Some);
                    assert(key_lt(old(self).tasks()[a].0, old(self).tasks()[b].0));
                }
            }
        }
        result
    }
}

impl<
    YieldReason: Copy + Eq + Ord,
    YieldResponse: PartialEq,
    const MAX_PENDING: usize,
> Default for TaskTracker<YieldReason, YieldResponse, MAX_PENDING> {
    fn default() -> (r: Self)
        ensures
            r.wf(),
            r.tasks() == Seq::<(YieldReason, Option<YieldResponse>)>::empty(),
    {
        Self::new()
    }
}

/// What is registered depends only on the answers for the pending reasons.
proof fn lemma_registered_all_agree<K: Ord, R>(
    tasks: Seq<(K, Option<R>)>,
    pending: Seq<(K, usize)>,
    a: Seq<bool>,
    b: Seq<bool>,
    max: usize,
)
    requires
        pending.len() <= a.len(),
        pending.len() <= b.len(),
        forall|i: int| 0 <= i < pending.len() ==> a[i] == b[i],
    ensures
        registered_all(tasks, pending, a, max) == registered_all(tasks, pending, b, max),
        all_fit(tasks, pending, a, max) == all_fit(tasks, pending, b, max),
    decreases pending.len(),
{
    if pending.len() > 0 {
        lemma_registered_all_agree(tasks, pending.drop_last(), a, b, max);
    }
}

/// What is left of the tasks is what something still waits for, with the responses that came in.
pub proof fn lemma_wanted_only<K: Ord, R>(
    tasks: Seq<(K, Option<R>)>,
    pending: Seq<(K, usize)>,
    reason: K,
)
    requires
        obeys_order::<K>(),
        sorted(tasks),
        sorted(pending),
    ensures
        lookup(still_wanted(tasks, pending), reason) == if has_key(pending, reason) {
            lookup(tasks, reason)
        } else {
            None
        },
{
    lemma_lookup_joined(tasks, pending, reason);
}

/// Where a future is unblocked, its task is the one that goes: the others are kept for later.
pub proof fn lemma_one_by_one<K: Ord, R>(
    wanted: Seq<(K, Option<R>)>,
    pending: Seq<(K, usize)>,
    i: int,
    other: K,
)
    requires
        obeys_order::<K>(),
        sorted(wanted),
        first_complete(wanted, pending, i),
    ensures
        removed(wanted, pending[i].0).len() == wanted.len() - 1,
        lookup(removed(wanted, pending[i].0), other) == if key_eq(pending[i].0, other) {
            None
        } else {
            lookup(wanted, other)
        },
{
    lemma_removed_sorted(wanted, pending[i].0);
    lemma_lookup_removed(wanted, pending[i].0, other);
}

/// If any of the pending reasons has a complete task, there is a first of them.
proof fn lemma_first_complete<K: Ord, R>(
    tasks: Seq<(K, Option<R>)>,
    pending: Seq<(K, usize)>,
    i: int,
) -> (first: int)
    requires
        0 <= i < pending.len(),
        complete(tasks, pending[i].0),
    ensures
        first <= i,
        first_complete(tasks, pending, first),
    decreases i,
{
    if forall|j: int| 0 <= j < i ==> !complete(tasks, (#[trigger] pending[j]).0) {
        i
    } else {
        let j = choose|j: int| 0 <= j < i && complete(tasks, (#[trigger] pending[j]).0);
        lemma_first_complete(tasks, pending, j)
    }
}

/// As long as something waits for a task that is complete, there is a future to unblock.
pub proof fn lemma_completed_found<K: Ord, R>(
    tasks: Seq<(K, Option<R>)>,
    pending: Seq<(K, usize)>,
    reason: K,
)
    requires
        obeys_order::<K>(),
        sorted(tasks),
        sorted(pending),
        complete(tasks, reason),
        has_key(pending, reason),
    ensures
        !none_complete(still_wanted(tasks, pending), pending),
        exists|i: int| #[trigger] first_complete(still_wanted(tasks, pending), pending, i),
{
    let wanted = still_wanted(tasks, pending);
    let r = rank(pending, reason);
    lemma_key_at_rank(pending, reason);
    let found = pending[r].0;
    lemma_rank_eq(tasks, found, reason);
    assert(key_eq(found, found));
    assert(key_at(pending, r, found));
    lemma_wanted_only(tasks, pending, found);
    assert(complete(wanted, found));
    let first = lemma_first_complete(wanted, pending, r);
    assert(first_complete(wanted, pending, first));
}

/// A task that is registered twice is registered once.
pub proof fn lemma_registered_once<K: Ord, R>(tasks: Seq<(K, Option<R>)>, reason: K, max: usize)
    requires
        obeys_order::<K>(),
        sorted(tasks),
    ensures
        registered(registered(tasks, reason, max), reason, max) == registered(tasks, reason, max),
{
    if !has_key(tasks, reason) && fits(tasks, reason, max) {
        lemma_inserted_sorted(tasks, reason, None::<R>);
    }
}

/// A registration adds at most its own reason, and changes no other task.
proof fn lemma_lookup_registered<K: Ord, R>(
    tasks: Seq<(K, Option<R>)>,
    reason: K,
    max: usize,
    other: K,
)
    requires
        obeys_order::<K>(),
        sorted(tasks),
    ensures
        sorted(registered(tasks, reason, max)),
        fits(tasks, reason, max) ==> has_key(registered(tasks, reason, max), reason),
        has_key(tasks, other) ==> lookup(registered(tasks, reason, max), other) == lookup(
            tasks,
            other,
        ),
{
    if !has_key(tasks, reason) && fits(tasks, reason, max) {
        lemma_inserted_sorted(tasks, reason, None::<R>);
        lemma_lookup_inserted(tasks, reason, None::<R>, other);
        if key_eq(reason, other) {
            lemma_rank_eq(tasks, reason, other);
        }
    }
}

/// Registrations lose no task, and no response that came in.
pub proof fn lemma_registrations_keep<K: Ord, R>(
    tasks: Seq<(K, Option<R>)>,
    pending: Seq<(K, usize)>,
    chosen: Seq<bool>,
    max: usize,
    reason: K,
)
    requires
        obeys_order::<K>(),
        sorted(tasks),
        pending.len() <= chosen.len(),
    ensures
        sorted(registered_all(tasks, pending, chosen, max)),
        has_key(tasks, reason) ==> lookup(registered_all(tasks, pending, chosen, max), reason)
            == lookup(tasks, reason),
    decreases pending.len(),
{
    if pending.len() > 0 {
        lemma_registrations_keep(tasks, pending.drop_last(), chosen, max, reason);
        lemma_lookup_registered(
            registered_all(tasks, pending.drop_last(), chosen, max),
            pending.last().0,
            max,
            reason,
        );
    }
}

/// If there was room for all of them, every chosen reason has a task.
pub proof fn lemma_chosen_registered<K: Ord, R>(
    tasks: Seq<(K, Option<R>)>,
    pending: Seq<(K, usize)>,
    chosen: Seq<bool>,
    max: usize,
    i: int,
)
    requires
        obeys_order::<K>(),
        sorted(tasks),
        pending.len() <= chosen.len(),
        all_fit(tasks, pending, chosen, max),
        0 <= i < pending.len(),
        chosen[i],
    ensures
        has_key(registered_all(tasks, pending, chosen, max), pending[i].0),
    decreases pending.len(),
{
    let reason = pending[i].0;
    let before = registered_all(tasks, pending.drop_last(), chosen, max);
    lemma_registrations_keep(tasks, pending.drop_last(), chosen, max, reason);
    lemma_lookup_registered(before, pending.last().0, max, reason);
    if i < pending.len() - 1 {
        lemma_chosen_registered(tasks, pending.drop_last(), chosen, max, i);
        assert(pending.drop_last()[i] == pending[i]);
    }
}

/// The worker succeeds as a whole exactly if it succeeds each time.
pub proof fn lemma_no_error<T, E>(results: Seq<Result<T, E>>)
    ensures
        last_error(results) is Ok <==> forall|i: int|
            0 <= i < results.len() ==> #[trigger] results[i] is Ok,
    decreases results.len(),
{
    if results.len() > 0 {
        let front = results.drop_last();
        lemma_no_error(front);
        assert(forall|i: int| 0 <= i < front.len() ==> front[i] == results[i]);
        assert(results[results.len() - 1] == results.last());
    }
}

/// Where the worker succeeds, the task is complete; where it fails, the task is as it was.
pub proof fn lemma_answers_complete<K: Ord, R, E>(
    tasks: Seq<(K, Option<R>)>,
    results: Seq<Result<R, E>>,
    i: int,
)
    requires
        obeys_order::<K>(),
        sorted(tasks),
        results.len() == tasks.len(),
        0 <= i < tasks.len(),
    ensures
        sorted(answered(tasks, results)),
        results[i] is Ok ==> lookup(answered(tasks, results), tasks[i].0) == Some(
            Some(results[i]->Ok_0),
        ),
        results[i] is Err ==> lookup(answered(tasks, results), tasks[i].0) == Some(tasks[i].1),
{
    let t = answered(tasks, results);
    assert forall|a: int, b: int| 0 <= a < b < t.len() implies key_lt(
        #[trigger] t[a].0,
        #[trigger] t[b].0,
    ) by {
        assert(t[a].0 == tasks[a].0 && t[b].0 == tasks[b].0);
    }
    assert(key_eq(tasks[i].0, tasks[i].0));
    assert(key_at(t, i, tasks[i].0));
    lemma_key_at_rank(t, tasks[i].0);
}

/// Every task is in one batch, and in no other.
pub proof fn lemma_one_batch_each(i: int, size: int, end: int, c: int)
    requires
        size > 0,
        0 <= i < end,
    ensures
        is_batch(c, size, end) && c * size <= i < batch_end(c, size, end) <==> c == i / size,
{
    lemma_fundamental_div_mod(i, size);
    let q = i / size;
    assert(0 <= i % size < size);
    assert(0 <= q) by (nonlinear_arith)
        requires
            i == size * q + i % size,
            0 <= i % size < size,
            0 <= i,
            size > 0,
    ;
    assert(size * q == q * size) by (nonlinear_arith);
    assert((q + 1) * size == q * size + size) by (nonlinear_arith);
    assert((c + 1) * size == c * size + size) by (nonlinear_arith);
    if c < q {
        assert((c + 1) * size <= q * size) by (nonlinear_arith)
            requires
                c + 1 <= q,
                size > 0,
        ;
    } else if c > q {
        assert((q + 1) * size <= c * size) by (nonlinear_arith)
            requires
                q + 1 <= c,
                size > 0,
        ;
    }
}

} // verus!
