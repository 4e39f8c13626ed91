//! What the runtime and its futures are for, stated of their calls.
use vstd::arithmetic::div_mod::{lemma_mod_self_0, lemma_small_mod};
use vstd::prelude::*;

use crate::common::{AsyncRuntimeError, FixedSizedMap};
use crate::entries::{has_key, key_at, lemma_key_at_rank, lemma_rank_eq, lookup, sorted};
use crate::futures::{
    all_awaited, departed, first_chosen, has_room, lemma_joining_undone, none_chosen, AsyncRuntime,
    FutureDropGuard, PendingFuture, DEFAULT_MAX_PENDING,
};
use crate::order::{key_eq, key_lt, obeys_order};
use crate::tally::{lemma_lookup_departed, lemma_lookup_joined_by};
use crate::yielder::{lemma_ready_after_turns, turns_after, AsyncYielder, YieldNow};

verus! {

/// How many futures wait for a reason, as the table has it.
pub open spec fn count<K: Ord>(s: Seq<(K, usize)>, reason: K) -> int {
    match lookup(s, reason) {
        Some(n) => n as int,
        None => 0,
    }
}

/// The caller has unblocked `reason`, or an equal one.
pub open spec fn is_unblocked<K: Ord, R>(unblocked: Option<(K, R)>, reason: K) -> bool {
    unblocked matches Some((given, _)) && key_eq(given, reason)
}

/// Nothing waits on a new runtime, and nothing is unblocked.
pub proof fn lemma_new_runtime_idle<K: Copy + Eq + Ord, R: PartialEq, const N: usize>(
    runtime: AsyncRuntime<K, R, N>,
    reason: K,
)
    requires
        call_ensures(AsyncRuntime::<K, R, N>::new, (), runtime),
    ensures
        runtime.wf(),
        count(runtime.pending(), reason) == 0,
        runtime.pending().len() == 0,
        runtime.unblocked() is None,
        !runtime.new_blockage(),
{
}

/// A runtime of the usual size takes a reason that is pending already, and a new one up to 1024.
pub proof fn lemma_usual_room<K: Ord>(s: Seq<(K, usize)>, reason: K)
    ensures
        has_room(s, reason, DEFAULT_MAX_PENDING) <==> lookup(s, reason) is Some || s.len() < 1024,
{
}

/// What can be asked of a runtime is answered as it is.
pub proof fn lemma_runtime_answers<K: Copy + Eq + Ord, R: PartialEq, const N: usize>(
    runtime: AsyncRuntime<K, R, N>,
    reason: K,
    has_unblocked: bool,
    size: usize,
    new_blockage: bool,
    table: &FixedSizedMap<K, usize, N>,
    future: PendingFuture<K>,
)
    requires
        call_ensures(AsyncRuntime::<K, R, N>::has_unblocked, (&runtime,), has_unblocked),
        call_ensures(AsyncRuntime::<K, R, N>::_pending_futures_size, (&runtime,), size),
        call_ensures(AsyncRuntime::<K, R, N>::_has_new_blockage, (&runtime,), new_blockage),
        call_ensures(AsyncRuntime::<K, R, N>::pending_futures, (&runtime,), table),
        call_ensures(AsyncRuntime::<K, R, N>::new_pending_future, (&runtime, reason), future),
    ensures
        has_unblocked <==> runtime.unblocked() is Some,
        size == runtime.pending().len(),
        new_blockage <==> runtime.new_blockage(),
        table@ == runtime.pending(),
        future matches PendingFuture::Unpolled(own) && own == reason,
{
}

/// To unblock a reason changes nothing else.
pub proof fn lemma_unblocked_as_told<K: Copy + Eq + Ord, R: PartialEq, const N: usize>(
    reason: K,
    response: R,
)
    ensures
        forall|rt: &mut AsyncRuntime<K, R, N>| #[trigger]
            call_ensures(AsyncRuntime::<K, R, N>::unblock_futures, (rt, reason, response), ())
                ==> {
                &&& final(rt).unblocked() matches Some((given, with)) && given == reason && with
                    == response
                &&& final(rt).pending() == rt.pending()
                &&& final(rt).new_blockage() == rt.new_blockage()
                &&& rt.wf() ==> final(rt).wf()
            },
        forall|rt: &mut AsyncRuntime<K, R, N>|
            rt.unblocked() is None ==> #[trigger] call_requires(
                AsyncRuntime::<K, R, N>::unblock_futures,
                (rt, reason, response),
            ),
{
}

/// A future that has not been polled yet enters the table, unless its reason is missing there and
/// all places are taken: then it fails, and nothing changes. If its reason is unblocked it takes
/// the response at once and leaves the table as it was; otherwise it waits, and counts for its own
/// reason and for no other.
pub proof fn lemma_first_poll<K: Copy + Eq + Ord, R: PartialEq, const N: usize>(
    reason: K,
    other: K,
)
    requires
        obeys_order::<K>(),
    ensures
        forall|
            f: &mut PendingFuture<K>,
            rt: &mut AsyncRuntime<K, R, N>,
            r: Option<Result<R, AsyncRuntimeError>>,
        | #[trigger]
            call_ensures(PendingFuture::<K>::poll::<R, N>, (f, rt), r) && rt.wf() && *f
                == PendingFuture::Unpolled(reason) && count(rt.pending(), reason) < usize::MAX
                ==> {
                let full = count(rt.pending(), reason) == 0 && rt.pending().len() == N;
                let before = count(rt.pending(), other);
                let after = count(final(rt).pending(), other);
                &&& final(rt).wf()
                &&& final(rt).new_blockage()
                &&& full <==> r == Some(
                    Err::<R, AsyncRuntimeError>(AsyncRuntimeError::TooManyPending),
                )
                &&& r is None <==> !full && !is_unblocked(rt.unblocked(), reason)
                &&& r matches Some(Ok(response)) ==> rt.unblocked() == Some(
                    ((rt.unblocked()->0).0, response),
                ) && final(rt).unblocked() is None
                &&& !(r matches Some(Ok(_))) ==> final(rt).unblocked() == rt.unblocked()
                &&& r is Some ==> *final(f) is Finished && after == before
                &&& r is None ==> {
                    &&& *final(f) matches PendingFuture::Waiting(guard) && guard.reason() == reason
                    &&& after == before + if key_eq(reason, other) {
                        1int
                    } else {
                        0
                    }
                }
            },
{
    assert forall|
        f: &mut PendingFuture<K>,
        rt: &mut AsyncRuntime<K, R, N>,
        r: Option<Result<R, AsyncRuntimeError>>,
    | #[trigger]
        call_ensures(PendingFuture::<K>::poll::<R, N>, (f, rt), r) && rt.wf() && *f
            == PendingFuture::Unpolled(reason) && count(rt.pending(), reason)
            < usize::MAX implies {
        let full = count(rt.pending(), reason) == 0 && rt.pending().len() == N;
        let before = count(rt.pending(), other);
        let after = count(final(rt).pending(), other);
        &&& full <==> r == Some(Err::<R, AsyncRuntimeError>(AsyncRuntimeError::TooManyPending))
        &&& r is None <==> !full && !is_unblocked(rt.unblocked(), reason)
        &&& r is Some ==> *final(f) is Finished && after == before
        &&& r is None ==> after == before + if key_eq(reason, other) {
            1int
        } else {
            0
        }
    } by {
        let s = rt.pending();
        lemma_joining_undone(s, reason);
        lemma_lookup_joined_by(s, reason, other);
        lemma_count_positive(s, reason);
        if key_eq(reason, other) {
            lemma_rank_eq(s, reason, other);
        }
    }
}

/// A reason is in the table exactly if something waits for it.
proof fn lemma_count_positive<K: Ord>(s: Seq<(K, usize)>, reason: K)
    requires
        obeys_order::<K>(),
        sorted(s),
        all_awaited(s),
    ensures
        has_key(s, reason) <==> count(s, reason) > 0,
{
    lemma_key_at_rank(s, reason);
}

/// A future that waits takes the response exactly if its reason is unblocked, and then counts no
/// more for its own reason, nor less for any other. Otherwise nothing at all changes.
pub proof fn lemma_later_poll<K: Copy + Eq + Ord, R: PartialEq, const N: usize>(
    guard: FutureDropGuard<K>,
    other: K,
)
    requires
        obeys_order::<K>(),
    ensures
        forall|
            f: &mut PendingFuture<K>,
            rt: &mut AsyncRuntime<K, R, N>,
            r: Option<Result<R, AsyncRuntimeError>>,
        | #[trigger]
            call_ensures(PendingFuture::<K>::poll::<R, N>, (f, rt), r) && rt.wf() && *f
                == PendingFuture::Waiting(guard) && count(rt.pending(), guard.reason()) > 0 ==> {
                &&& final(rt).wf()
                &&& final(rt).new_blockage() == rt.new_blockage()
                &&& is_unblocked(rt.unblocked(), guard.reason()) ==> {
                    &&& r == Some(Ok::<R, AsyncRuntimeError>((rt.unblocked()->0).1))
                    &&& *final(f) is Finished
                    &&& final(rt).unblocked() is None
                    &&& count(final(rt).pending(), other) == count(rt.pending(), other) - if key_eq(
                        guard.reason(),
                        other,
                    ) {
                        1int
                    } else {
                        0
                    }
                }
                &&& !is_unblocked(rt.unblocked(), guard.reason()) ==> {
                    &&& r is None
                    &&& *final(f) == *f
                    &&& *final(rt) == *rt
                }
            },
{
    assert forall|
        f: &mut PendingFuture<K>,
        rt: &mut AsyncRuntime<K, R, N>,
        r: Option<Result<R, AsyncRuntimeError>>,
    | #[trigger]
        call_ensures(PendingFuture::<K>::poll::<R, N>, (f, rt), r) && rt.wf() && *f
            == PendingFuture::Waiting(guard) && count(rt.pending(), guard.reason()) > 0
            && is_unblocked(rt.unblocked(), guard.reason()) implies count(
        final(rt).pending(),
        other,
    ) == count(rt.pending(), other) - if key_eq(guard.reason(), other) {
        1int
    } else {
        0
    } by {
        lemma_count_departed(rt.pending(), guard.reason(), other);
    }
}

/// One less future counts for its own reason, and no less for any other.
proof fn lemma_count_departed<K: Ord>(s: Seq<(K, usize)>, reason: K, other: K)
    requires
        obeys_order::<K>(),
        sorted(s),
        count(s, reason) > 0,
    ensures
        count(departed(s, reason), other) == count(s, other) - if key_eq(reason, other) {
            1int
        } else {
            0
        },
{
    lemma_lookup_departed(s, reason, other);
    if key_eq(reason, other) {
        lemma_rank_eq(s, reason, other);
    }
}

/// A future that is abandoned counts no more, if it waited; nothing is unblocked by that. One that
/// does not wait leaves the runtime alone.
pub proof fn lemma_abandoned<K: Copy + Eq + Ord, R: PartialEq, const N: usize>(other: K)
    requires
        obeys_order::<K>(),
    ensures
        forall|f: &mut PendingFuture<K>, rt: &mut AsyncRuntime<K, R, N>| #[trigger]
            call_ensures(PendingFuture::<K>::cancel::<R, N>, (f, rt), ()) && rt.wf() ==> {
                &&& *final(f) is Finished
                &&& final(rt).wf()
                &&& final(rt).unblocked() == rt.unblocked()
                &&& final(rt).new_blockage() == rt.new_blockage()
                &&& !(*f is Waiting) ==> *final(rt) == *rt
                &&& *f matches PendingFuture::Waiting(guard) ==> (count(
                    rt.pending(),
                    guard.reason(),
                ) > 0 ==> count(final(rt).pending(), other) == count(rt.pending(), other) - if key_eq(
                    guard.reason(),
                    other,
                ) {
                    1int
                } else {
                    0
                })
            },
{
    assert forall|f: &mut PendingFuture<K>, rt: &mut AsyncRuntime<K, R, N>| #[trigger]
        call_ensures(PendingFuture::<K>::cancel::<R, N>, (f, rt), ()) && rt.wf() && (*f is Waiting
            && count(rt.pending(), (*f)->Waiting_0.reason()) > 0) implies count(
        final(rt).pending(),
        other,
    ) == count(rt.pending(), other) - if key_eq((*f)->Waiting_0.reason(), other) {
        1int
    } else {
        0
    } by {
        lemma_count_departed(rt.pending(), (*f)->Waiting_0.reason(), other);
    }
}

/// Whatever is unblocked is handed, with its response, to a future that waits for it, and to none
/// that waits for anything else.
pub proof fn lemma_response_delivered<K: Copy + Eq + Ord, R: PartialEq, const N: usize>(
    reason: K,
    response: R,
    guard: FutureDropGuard<K>,
)
    ensures
        forall|
            told: &mut AsyncRuntime<K, R, N>,
            f: &mut PendingFuture<K>,
            rt: &mut AsyncRuntime<K, R, N>,
            r: Option<Result<R, AsyncRuntimeError>>,
        |
            #![trigger
                call_ensures(AsyncRuntime::<K, R, N>::unblock_futures, (told, reason, response), ()),
                call_ensures(PendingFuture::<K>::poll::<R, N>, (f, rt), r)
            ]
            call_ensures(AsyncRuntime::<K, R, N>::unblock_futures, (told, reason, response), ())
                && call_ensures(PendingFuture::<K>::poll::<R, N>, (f, rt), r) && *rt == *final(told)
                && *f == PendingFuture::Waiting(guard) ==> {
                &&& key_eq(reason, guard.reason()) ==> r == Some(
                    Ok::<R, AsyncRuntimeError>(response),
                ) && final(rt).unblocked() is None
                &&& !key_eq(reason, guard.reason()) ==> r is None && final(rt).unblocked() == Some(
                    (reason, response),
                )
            },
{
}

/// A step polls once, with what is unblocked at hand, and answers what the poll answered. Nothing
/// is unblocked any more when it ends.
pub proof fn lemma_step_polls_once<
    K: Copy + Eq + Ord,
    R: PartialEq,
    const N: usize,
    T,
    F: FnOnce(&mut AsyncRuntime<K, R, N>) -> Option<T>,
>(poll: F)
    ensures
        forall|rt: &mut AsyncRuntime<K, R, N>, r: Option<T>| #[trigger]
            call_ensures(AsyncRuntime::<K, R, N>::run_async_step::<T>, (rt, poll), r) ==> {
                &&& final(rt).unblocked() is None
                &&& exists|y: &mut AsyncRuntime<K, R, N>|
                    {
                        &&& #[trigger] call_ensures(poll, (y,), r)
                        &&& y.unblocked() == rt.unblocked()
                        &&& y.pending() == rt.pending()
                        &&& !y.new_blockage()
                        &&& final(rt).pending() == final(y).pending()
                        &&& final(rt).new_blockage() == final(y).new_blockage()
                    }
            },
{
}

/// If the condition is `wanted`, the smallest of the pending reasons that are wanted is chosen, and
/// nothing only if none is.
pub proof fn lemma_smallest_wanted_chosen<
    K: Copy + Eq + Ord,
    R: PartialEq,
    const N: usize,
    F: FnMut(K) -> bool,
>(
    runtime: AsyncRuntime<K, R, N>,
    func: F,
    wanted: spec_fn(K) -> bool,
    r: Option<K>,
)
    requires
        obeys_order::<K>(),
        runtime.wf(),
        forall|reason: K, b: bool| #[trigger]
            call_ensures(func, (reason,), b) ==> b == wanted(reason),
        call_ensures(AsyncRuntime::<K, R, N>::check_pending_reasons::<F>, (&runtime, func), r),
    ensures
        r is None <==> forall|i: int|
            0 <= i < runtime.pending().len() ==> !wanted((#[trigger] runtime.pending()[i]).0),
        r matches Some(reason) ==> {
            &&& wanted(reason)
            &&& has_key(runtime.pending(), reason)
            &&& forall|i: int|
                0 <= i < runtime.pending().len() && key_lt(
                    (#[trigger] runtime.pending()[i]).0,
                    reason,
                ) ==> !wanted(runtime.pending()[i].0)
        },
{
    let s = runtime.pending();
    match r {
        None => {
            assert(none_chosen(func, s));
            assert forall|i: int| 0 <= i < s.len() implies !wanted((#[trigger] s[i]).0) by {
                assert(call_ensures(func, (s[i].0,), false));
            }
        },
        Some(reason) => {
            let i = choose|i: int| #[trigger] first_chosen(func, s, i) && reason == s[i].0;
            assert(call_ensures(func, (s[i].0,), true));
            assert(key_eq(reason, reason));
            assert(key_at(s, i, reason));
            assert forall|j: int| 0 <= j < s.len() && key_lt((#[trigger] s[j]).0, reason) implies !wanted(
                s[j].0,
            ) by {
                if j > i {
                    assert(key_lt(s[i].0, s[j].0));
                } else if j < i {
                    assert(call_ensures(func, (s[j].0,), false));
                }
            }
        },
    }
}

/// A loop that yields waits, from its first poll on, until the other loop has had a turn; it is
/// ready after that one turn, whatever the count was.
pub proof fn lemma_yields_for_a_turn(before: AsyncYielder, fresh: YieldNow)
    requires
        call_ensures(AsyncYielder::yield_now, (&before,), fresh),
    ensures
        forall|f: &mut YieldNow, r: bool| #[trigger]
            call_ensures(YieldNow::poll, (f, &before), r) && *f == fresh ==> {
                &&& !r
                &&& *final(f) == YieldNow::Waiting(before.turns())
            },
        forall|f: &mut YieldNow, r: bool| #[trigger]
            call_ensures(YieldNow::poll, (f, &before), r) && *f == YieldNow::Waiting(before.turns())
                ==> {
                &&& !r
                &&& *final(f) == *f
            },
        forall|y: &mut AsyncYielder, f: &mut YieldNow, r: bool, after: AsyncYielder|
            #![trigger
                call_ensures(AsyncYielder::unblock, (y,), ()),
                call_ensures(YieldNow::poll, (f, &after), r)
            ]
            call_ensures(AsyncYielder::unblock, (y,), ()) && *y == before && after == *final(y)
                && call_ensures(YieldNow::poll, (f, &after), r) && *f == YieldNow::Waiting(
                before.turns(),
            ) ==> {
                &&& r
                &&& *final(f) is Finished
            },
{
    lemma_ready_after_turns(before.turns(), 1);
}

/// A turn counts one, and the count starts at zero, at first and after the largest count.
pub proof fn lemma_turns_counted(fresh: AsyncYielder)
    requires
        call_ensures(AsyncYielder::default, (), fresh),
    ensures
        fresh.turns() == 0,
        forall|y: &mut AsyncYielder| #[trigger]
            call_ensures(AsyncYielder::unblock, (y,), ()) ==> {
                &&& y.turns() < usize::MAX ==> final(y).turns() == y.turns() + 1
                &&& y.turns() == usize::MAX ==> final(y).turns() == 0
            },
{
    assert forall|turns: usize| #[trigger] turns_after(turns, 1) == if turns < usize::MAX {
        turns + 1
    } else {
        0
    } by {
        if turns < usize::MAX {
            lemma_small_mod((turns + 1) as nat, (usize::MAX + 1) as nat);
        } else {
            lemma_mod_self_0(usize::MAX + 1);
        }
    }
}

} // verus!
