//! What holds of a runtime and all of its futures together.
use vstd::prelude::*;
use vstd::set_lib::{lemma_int_range, lemma_len_subset, set_int_range};

use crate::common::AsyncRuntimeError;
use crate::entries::{
    has_key, key_at, lemma_key_at_rank, lemma_lookup_inserted, lemma_lookup_removed,
    lemma_lookup_updated, lemma_rank_eq, lookup, sorted,
};
use crate::futures::{
    cancelled, departed, has_room, joined, lemma_joining_undone, polled, unblocks, AsyncRuntime,
    FutureDropGuard, PendingFuture,
};
use crate::order::{key_eq, key_lt, obeys_order};

verus! {

/// A future that is abandoned while it waits leaves the runtime's table as it was before the future
/// was first polled.
pub proof fn lemma_cancel_undoes_poll<K: Copy + Eq + Ord, R: PartialEq, const N: usize>(
    reason: K,
    first: AsyncRuntime<K, R, N>,
    waiting: PendingFuture<K>,
    second: AsyncRuntime<K, R, N>,
    after: PendingFuture<K>,
    third: AsyncRuntime<K, R, N>,
)
    requires
        obeys_order::<K>(),
        first.wf(),
        lookup(first.pending(), reason) matches Some(n) ==> n < usize::MAX,
        polled(PendingFuture::Unpolled(reason), first, waiting, second, None),
        cancelled(waiting, second, after, third),
    ensures
        third.pending() == first.pending(),
        third.unblocked() == first.unblocked(),
{
    lemma_joining_undone(first.pending(), reason);
}

/// If two futures wait for the same reason, only the one that is polled first is unblocked.
pub proof fn lemma_only_first_unblocked<K: Copy + Eq + Ord, R: PartialEq, const N: usize>(
    a: FutureDropGuard<K>,
    b: FutureDropGuard<K>,
    first: AsyncRuntime<K, R, N>,
    a_after: PendingFuture<K>,
    second: AsyncRuntime<K, R, N>,
    a_answer: Option<Result<R, AsyncRuntimeError>>,
    b_after: PendingFuture<K>,
    third: AsyncRuntime<K, R, N>,
    b_answer: Option<Result<R, AsyncRuntimeError>>,
)
    requires
        unblocks(first.unblocked(), a.reason()),
        key_eq(a.reason(), b.reason()),
        polled(PendingFuture::Waiting(a), first, a_after, second, a_answer),
        polled(PendingFuture::Waiting(b), second, b_after, third, b_answer),
    ensures
        a_answer == Some(Ok::<R, AsyncRuntimeError>((first.unblocked()->0).1)),
        b_answer is None,
        b_after == PendingFuture::Waiting(b),
        third == second,
{
}

/// A future that waits for another reason than the one that was unblocked goes on waiting, and
/// nothing changes.
pub proof fn lemma_other_reason_ignored<K: Copy + Eq + Ord, R: PartialEq, const N: usize>(
    guard: FutureDropGuard<K>,
    start: AsyncRuntime<K, R, N>,
    after: PendingFuture<K>,
    end: AsyncRuntime<K, R, N>,
    r: Option<Result<R, AsyncRuntimeError>>,
)
    requires
        !unblocks(start.unblocked(), guard.reason()),
        polled(PendingFuture::Waiting(guard), start, after, end, r),
    ensures
        r is None,
        after == PendingFuture::Waiting(guard),
        end == start,
{
}

/// A future was polled or abandoned: the only two things that can happen to it within a step.
pub open spec fn touched<K: Copy + Eq + Ord, R: PartialEq, const N: usize>(
    before: PendingFuture<K>,
    start: AsyncRuntime<K, R, N>,
    after: PendingFuture<K>,
    end: AsyncRuntime<K, R, N>,
    r: Option<Result<R, AsyncRuntimeError>>,
) -> bool {
    ||| !(before is Finished) && polled(before, start, after, end, r)
    ||| r is None && cancelled(before, start, after, end)
}

/// Only one transition is taken within a step: whatever happens to however many futures, at most
/// one of them gets a response. `runtimes` holds the states of the runtime in between.
pub proof fn lemma_one_response_per_step<K: Copy + Eq + Ord, R: PartialEq, const N: usize>(
    before: Seq<PendingFuture<K>>,
    after: Seq<PendingFuture<K>>,
    runtimes: Seq<AsyncRuntime<K, R, N>>,
    answers: Seq<Option<Result<R, AsyncRuntimeError>>>,
    a: int,
    b: int,
)
    requires
        forall|k: int|
            0 <= k < answers.len() ==> touched(
                before[k],
                runtimes[k],
                after[k],
                runtimes[k + 1],
                #[trigger] answers[k],
            ),
        0 <= a < b < answers.len(),
        answers[a] matches Some(Ok(_)),
    ensures
        runtimes[b].unblocked() is None,
        !(answers[b] matches Some(Ok(_))),
    decreases b - a,
{
    assert(touched(before[a], runtimes[a], after[a], runtimes[a + 1], answers[a]));
    assert(touched(before[b], runtimes[b], after[b], runtimes[b + 1], answers[b]));
    if a + 1 < b {
        lemma_one_response_per_step(before, after, runtimes, answers, a, b - 1);
        let c = b - 1;
        assert(touched(before[c], runtimes[c], after[c], runtimes[c + 1], answers[c]));
    }
}

/// The future waits for `reason`.
pub open spec fn awaits<K: Copy + Eq + Ord>(future: PendingFuture<K>, reason: K) -> bool {
    future matches PendingFuture::Waiting(guard) && key_eq(guard.reason(), reason)
}

/// How many of the futures wait for `reason`.
pub open spec fn waiting_for<K: Copy + Eq + Ord>(futures: Seq<PendingFuture<K>>, reason: K) -> nat
    decreases futures.len(),
{
    if futures.len() == 0 {
        0
    } else {
        waiting_for(futures.drop_last(), reason) + if awaits(futures.last(), reason) {
            1nat
        } else {
            0
        }
    }
}

/// The table says of every reason how many of the futures wait for it.
pub open spec fn tallied<K: Copy + Eq + Ord>(
    s: Seq<(K, usize)>,
    futures: Seq<PendingFuture<K>>,
) -> bool {
    forall|reason: K|
        match #[trigger] lookup(s, reason) {
            Some(n) => n > 0 && n == waiting_for(futures, reason),
            None => waiting_for(futures, reason) == 0,
        }
}

/// A change of one future changes the count by that future.
proof fn lemma_waiting_update<K: Copy + Eq + Ord>(
    futures: Seq<PendingFuture<K>>,
    i: int,
    future: PendingFuture<K>,
    reason: K,
)
    requires
        0 <= i < futures.len(),
    ensures
        waiting_for(futures.update(i, future), reason) + (if awaits(futures[i], reason) {
            1nat
        } else {
            0
        }) == waiting_for(futures, reason) + (if awaits(future, reason) {
            1nat
        } else {
            0
        }),
    decreases futures.len(),
{
    let changed = futures.update(i, future);
    if i == futures.len() - 1 {
        assert(changed.drop_last() =~= futures.drop_last());
    } else {
        lemma_waiting_update(futures.drop_last(), i, future, reason);
        assert(changed.drop_last() =~= futures.drop_last().update(i, future));
    }
}

/// What the table says once one more future waits for `reason`.
pub proof fn lemma_lookup_joined_by<K: Ord>(s: Seq<(K, usize)>, reason: K, other: K)
    requires
        obeys_order::<K>(),
        sorted(s),
        lookup(s, reason) matches Some(n) ==> n < usize::MAX,
    ensures
        lookup(joined(s, reason), other) == if key_eq(reason, other) {
            match lookup(s, reason) {
                Some(n) => Some((n + 1) as usize),
                None => Some(1),
            }
        } else {
            lookup(s, other)
        },
{
    match lookup(s, reason) {
        Some(n) => lemma_lookup_updated(s, reason, (n + 1) as usize, other),
        None => lemma_lookup_inserted(s, reason, 1, other),
    }
}

/// What the table says once one less future waits for `reason`.
pub proof fn lemma_lookup_departed<K: Ord>(s: Seq<(K, usize)>, reason: K, other: K)
    requires
        obeys_order::<K>(),
        sorted(s),
    ensures
        lookup(departed(s, reason), other) == if key_eq(reason, other) {
            match lookup(s, reason) {
                Some(n) => if n > 1 {
                    Some((n - 1) as usize)
                } else {
                    None
                },
                None => None,
            }
        } else {
            lookup(s, other)
        },
{
    match lookup(s, reason) {
        Some(n) => if n > 1 {
            lemma_lookup_updated(s, reason, (n - 1) as usize, other);
        } else {
            lemma_lookup_removed(s, reason, other);
        },
        None => if key_eq(reason, other) {
            lemma_rank_eq(s, reason, other);
        },
    }
}

/// Fewer futures wait than there are, if one of them does not.
proof fn lemma_fewer_wait<K: Copy + Eq + Ord>(futures: Seq<PendingFuture<K>>, i: int, reason: K)
    requires
        0 <= i < futures.len(),
        !(futures[i] is Waiting),
    ensures
        waiting_for(futures, reason) < futures.len(),
    decreases futures.len(),
{
    lemma_waiting_bound(futures.drop_last(), reason);
    if i < futures.len() - 1 {
        lemma_fewer_wait(futures.drop_last(), i, reason);
    }
}

/// No more futures wait than there are.
proof fn lemma_waiting_bound<K: Copy + Eq + Ord>(futures: Seq<PendingFuture<K>>, reason: K)
    ensures
        waiting_for(futures, reason) <= futures.len(),
    decreases futures.len(),
{
    if futures.len() > 0 {
        lemma_waiting_bound(futures.drop_last(), reason);
    }
}

/// The count for a reason is the count for every equal one.
proof fn lemma_waiting_eq<K: Copy + Eq + Ord>(futures: Seq<PendingFuture<K>>, a: K, b: K)
    requires
        obeys_order::<K>(),
        key_eq(a, b),
    ensures
        waiting_for(futures, a) == waiting_for(futures, b),
    decreases futures.len(),
{
    if futures.len() > 0 {
        lemma_waiting_eq(futures.drop_last(), a, b);
        if let PendingFuture::Waiting(guard) = futures.last() {
            assert(key_eq(b, a));
            assert(key_eq(guard.reason(), a) <==> key_eq(guard.reason(), b));
        }
    }
}

/// If the table says of every reason how many futures wait for it, it still does after any of them
/// was polled.
pub proof fn lemma_poll_keeps_tally<K: Copy + Eq + Ord, R: PartialEq, const N: usize>(
    futures: Seq<PendingFuture<K>>,
    i: int,
    start: AsyncRuntime<K, R, N>,
    after: PendingFuture<K>,
    end: AsyncRuntime<K, R, N>,
    r: Option<Result<R, AsyncRuntimeError>>,
)
    requires
        obeys_order::<K>(),
        start.wf(),
        tallied(start.pending(), futures),
        0 <= i < futures.len(),
        futures.len() <= usize::MAX,
        !(futures[i] is Finished),
        polled(futures[i], start, after, end, r),
    ensures
        tallied(end.pending(), futures.update(i, after)),
{
    let s = start.pending();
    assert forall|reason: K|
        match #[trigger] lookup(end.pending(), reason) {
            Some(n) => n > 0 && n == waiting_for(futures.update(i, after), reason),
            None => waiting_for(futures.update(i, after), reason) == 0,
        } by {
        lemma_waiting_update(futures, i, after, reason);
        assert(lookup(s, reason) is None ==> waiting_for(futures, reason) == 0);
        match futures[i] {
            PendingFuture::Unpolled(own) => {
                lemma_fewer_wait(futures, i, own);
                assert(lookup(s, own) is None ==> waiting_for(futures, own) == 0);
                if after is Waiting {
                    lemma_lookup_joined_by(s, own, reason);
                    if key_eq(own, reason) {
                        lemma_waiting_eq(futures, own, reason);
                    }
                }
            },
            PendingFuture::Waiting(guard) => {
                let own = guard.reason();
                if after is Finished {
                    lemma_lookup_departed(s, own, reason);
                    if key_eq(own, reason) {
                        lemma_waiting_eq(futures, own, reason);
                        assert(lookup(s, own) is None ==> waiting_for(futures, own) == 0);
                    }
                }
            },
            PendingFuture::Finished => {},
        }
    }
}

/// If the table says of every reason how many futures wait for it, it still does after any of them
/// was abandoned.
pub proof fn lemma_cancel_keeps_tally<K: Copy + Eq + Ord, R: PartialEq, const N: usize>(
    futures: Seq<PendingFuture<K>>,
    i: int,
    start: AsyncRuntime<K, R, N>,
    after: PendingFuture<K>,
    end: AsyncRuntime<K, R, N>,
)
    requires
        obeys_order::<K>(),
        start.wf(),
        tallied(start.pending(), futures),
        0 <= i < futures.len(),
        cancelled(futures[i], start, after, end),
    ensures
        tallied(end.pending(), futures.update(i, after)),
{
    let s = start.pending();
    assert forall|reason: K|
        match #[trigger] lookup(end.pending(), reason) {
            Some(n) => n > 0 && n == waiting_for(futures.update(i, after), reason),
            None => waiting_for(futures.update(i, after), reason) == 0,
        } by {
        lemma_waiting_update(futures, i, after, reason);
        assert(lookup(s, reason) is None ==> waiting_for(futures, reason) == 0);
        if let PendingFuture::Waiting(guard) = futures[i] {
            let own = guard.reason();
            lemma_lookup_departed(s, own, reason);
            if key_eq(own, reason) {
                lemma_waiting_eq(futures, own, reason);
                assert(lookup(s, own) is None ==> waiting_for(futures, own) == 0);
            }
        }
    }
}

/// Nothing is entered in the table as long as no future waits.
pub proof fn lemma_tally_starts<K: Copy + Eq + Ord>(futures: Seq<PendingFuture<K>>)
    requires
        forall|i: int| 0 <= i < futures.len() ==> !(#[trigger] futures[i] is Waiting),
    ensures
        tallied(Seq::<(K, usize)>::empty(), futures),
{
    let s = Seq::<(K, usize)>::empty();
    assert forall|reason: K| #[trigger] lookup(s, reason) is None && waiting_for(futures, reason)
        == 0 by {
        lemma_none_waits(futures, reason);
    }
}

/// Nothing is counted where no future waits.
proof fn lemma_none_waits<K: Copy + Eq + Ord>(futures: Seq<PendingFuture<K>>, reason: K)
    requires
        forall|i: int| 0 <= i < futures.len() ==> !(#[trigger] futures[i] is Waiting),
    ensures
        waiting_for(futures, reason) == 0,
    decreases futures.len(),
{
    if futures.len() > 0 {
        lemma_none_waits(futures.drop_last(), reason);
    }
}

/// Some future waits for a reason that is counted.
proof fn lemma_some_waits<K: Copy + Eq + Ord>(futures: Seq<PendingFuture<K>>, reason: K) -> (i: int)
    requires
        waiting_for(futures, reason) > 0,
    ensures
        0 <= i < futures.len(),
        awaits(futures[i], reason),
    decreases futures.len(),
{
    if awaits(futures.last(), reason) {
        futures.len() - 1
    } else {
        lemma_some_waits(futures.drop_last(), reason)
    }
}

/// Whatever reason the caller picks from the table, some future waits for it.
pub proof fn lemma_pending_awaited<K: Copy + Eq + Ord>(
    s: Seq<(K, usize)>,
    futures: Seq<PendingFuture<K>>,
    reason: K,
)
    requires
        tallied(s, futures),
        has_key(s, reason),
    ensures
        exists|i: int| 0 <= i < futures.len() && #[trigger] awaits(futures[i], reason),
{
    assert(lookup(s, reason) is Some);
    let i = lemma_some_waits(futures, reason);
    assert(awaits(futures[i], reason));
}

/// A machine that never has more than `max` futures at a time never runs out of `max` places.
pub proof fn lemma_room_for_few<K: Copy + Eq + Ord>(
    s: Seq<(K, usize)>,
    futures: Seq<PendingFuture<K>>,
    i: int,
    max: usize,
)
    requires
        obeys_order::<K>(),
        sorted(s),
        tallied(s, futures),
        futures.len() <= max,
        0 <= i < futures.len(),
        futures[i] is Unpolled,
    ensures
        has_room(s, futures[i]->Unpolled_0, max),
{
    let n = futures.len() as int;
    // Each reason in the table has a future that waits for it, and not two have the same.
    let owners = Seq::new(
        s.len(),
        |k: int| choose|j: int| 0 <= j < n && awaits(futures[j], s[k].0),
    );
    assert forall|k: int| 0 <= k < s.len() implies 0 <= #[trigger] owners[k] < n && awaits(
        futures[owners[k]],
        s[k].0,
    ) by {
        assert(key_eq(s[k].0, s[k].0));
        assert(key_at(s, k, s[k].0));
        lemma_key_at_rank(s, s[k].0);
        assert(lookup(s, s[k].0) is Some);
        let j = lemma_some_waits(futures, s[k].0);
        assert(0 <= j < n && awaits(futures[j], s[k].0));
    }
    assert forall|a: int, b: int| 0 <= a < b < s.len() implies owners[a] != owners[b] by {
        if owners[a] == owners[b] {
            let own = futures[owners[a]]->Waiting_0.reason();
            assert(key_eq(own, s[a].0) && key_eq(own, s[b].0));
            assert(key_eq(s[a].0, own));
            assert(key_lt(s[a].0, s[b].0));
        }
    }
    assert(owners.no_duplicates());
    owners.unique_seq_to_set();
    lemma_int_range(0, n);
    let others = set_int_range(0, n).remove(i);
    assert(owners.to_set().subset_of(others));
    lemma_len_subset(owners.to_set(), others);
}

} // verus!
