//! The state of an asynchronous state machine, and the futures that it waits for.
//!
//! A machine runs in steps. Within a step it may find that it cannot go on: it then waits for a
//! reason. Between two steps the caller looks at the pending reasons, chooses one and unblocks it
//! with a response.
use vstd::prelude::*;

use crate::common::{AsyncRuntimeError, FixedSizedMap};
use crate::entries::{
    has_key, inserted, lemma_inserted_sorted, lemma_key_at_rank, lemma_removed_sorted,
    lemma_updated_sorted, lookup, rank, removed, sorted, updated,
};
use crate::order::{key_eq, obeys_order, same};

verus! {

/// The size of the table of pending reasons that suits most machines.
pub const DEFAULT_MAX_PENDING: usize = 1024;

/// How many futures wait for each reason, with one more that waits for `reason`.
pub open spec fn joined<K: Ord>(s: Seq<(K, usize)>, reason: K) -> Seq<(K, usize)> {
    match lookup(s, reason) {
        Some(n) => updated(s, reason, (n + 1) as usize),
        None => inserted(s, reason, 1),
    }
}

/// How many futures wait for each reason, with one less that waits for `reason`. A reason that
/// nothing waits for is not kept.
pub open spec fn departed<K: Ord>(s: Seq<(K, usize)>, reason: K) -> Seq<(K, usize)> {
    match lookup(s, reason) {
        Some(n) => if n > 1 {
            updated(s, reason, (n - 1) as usize)
        } else {
            removed(s, reason)
        },
        None => s,
    }
}

/// A table with `max` places has one for `reason`.
pub open spec fn has_room<K: Ord>(s: Seq<(K, usize)>, reason: K, max: usize) -> bool {
    has_key(s, reason) || s.len() < max
}

/// Something waits for every reason in the table.
pub open spec fn all_awaited<K>(s: Seq<(K, usize)>) -> bool {
    forall|i: int| 0 <= i < s.len() ==> (#[trigger] s[i]).1 > 0
}

/// `unblocked` is meant for the futures that wait for `reason`.
pub open spec fn unblocks<K: Ord, R>(unblocked: Option<(K, R)>, reason: K) -> bool {
    unblocked is Some && key_eq((unblocked->0).0, reason)
}

/// The runtime of one asynchronous state machine.
///
/// * `YieldReason`: what a machine can wait for. A plain enumeration with the derived order serves
///   best.
/// * `YieldResponse`: what the caller answers with.
///
/// At most `MAX_PENDING` different reasons can be pending at a time.
#[derive(Debug)]
pub struct AsyncRuntime<
    YieldReason: Copy + Eq + Ord,
    YieldResponse: PartialEq,
    const MAX_PENDING: usize,
> {
    has_unblock: Option<(YieldReason, YieldResponse)>,
    has_new_future: bool,
    pending_futures: FixedSizedMap<YieldReason, usize, MAX_PENDING>,
}

impl<
    YieldReason: Copy + Eq + Ord,
    YieldResponse: PartialEq,
    const MAX_PENDING: usize,
> AsyncRuntime<YieldReason, YieldResponse, MAX_PENDING> {
    /// The reason that the caller has unblocked, with the response, until a future takes it or
    /// the step ends.
    pub closed spec fn unblocked(&self) -> Option<(YieldReason, YieldResponse)> {
        self.has_unblock
    }

    /// A future was created since the last step began.
    pub closed spec fn new_blockage(&self) -> bool {
        self.has_new_future
    }

    /// The table of the pending reasons.
    pub closed spec fn table(&self) -> FixedSizedMap<YieldReason, usize, MAX_PENDING> {
        self.pending_futures
    }

    /// The pending reasons in ascending order, each with the number of futures that wait for it.
    pub open spec fn pending(&self) -> Seq<(YieldReason, usize)> {
        self.table()@
    }

    /// What every operation relies on and keeps.
    pub open spec fn wf(&self) -> bool {
        &&& self.table().wf()
        &&& all_awaited(self.pending())
    }

    /// A runtime that nothing waits on.
    pub fn new() -> (r: Self)
        ensures
            r.wf(),
            r.unblocked() is None,
            !r.new_blockage(),
            r.pending() == Seq::<(YieldReason, usize)>::empty(),
    {
        Self { has_unblock: None, has_new_future: false, pending_futures: FixedSizedMap::new() }
    }

    /// Unblocks one future that waits for `future_type`: the first that is polled in the next
    /// step. At most one reason may be unblocked between two steps.
    pub fn unblock_futures(&mut self, future_type: YieldReason, status: YieldResponse)
        requires
            old(self).unblocked() is None,
        ensures
            final(self).unblocked() == Some((future_type, status)),
            final(self).new_blockage() == old(self).new_blockage(),
            final(self).table() == old(self).table(),
    {
        self.has_unblock = Some((future_type, status));
    }

    /// Whether a reason has been unblocked that no future has taken yet.
    pub fn has_unblocked(&self) -> (r: bool)
        ensures
            r == self.unblocked() is Some,
    {
        self.has_unblock.is_some()
    }

    /// The number of pending reasons: what `MAX_PENDING` has to make room for.
    pub fn _pending_futures_size(&self) -> (r: usize)
        ensures
            r == self.pending().len(),
    {
        self.pending_futures.len()
    }

    /// Whether a future was created since the last step began.
    pub fn _has_new_blockage(&self) -> (r: bool)
        ensures
            r == self.new_blockage(),
    {
        self.has_new_future
    }

    /// The table of the pending reasons.
    pub fn pending_futures(&self) -> (r: &FixedSizedMap<YieldReason, usize, MAX_PENDING>)
        ensures
            *r == self.table(),
    {
        &self.pending_futures
    }

    /// Runs one step of a machine. `poll` polls it exactly once, with this runtime at hand, and
    /// answers what it finished with, or `None` if it yielded.
    ///
    /// What was unblocked for the step and not taken in it is forgotten.
    pub fn run_async_step<T>(&mut self, poll: impl FnOnce(&mut Self) -> Option<T>) -> (r: Option<T>)
        requires
            forall|y: &mut Self| #![trigger call_requires(poll, (y,))]
                y.unblocked() == old(self).unblocked() && !y.new_blockage() && y.table()
                    == old(self).table() ==> call_requires(poll, (y,)),
        ensures
            final(self).unblocked() is None,
            exists|y: &mut Self|
                {
                    &&& y.unblocked() == old(self).unblocked()
                    &&& !y.new_blockage()
                    &&& y.table() == old(self).table()
                    &&& #[trigger] call_ensures(poll, (y,), r)
                    &&& final(self).new_blockage() == final(y).new_blockage()
                    &&& final(self).table() == final(y).table()
                },
    {
        self.has_new_future = false;
        let result = poll(self);
        self.has_unblock = None;
        result
    }

    /// The first of the pending reasons, in ascending order, that `func` answers true for.
    pub fn check_pending_reasons<F>(&self, func: F) -> (r: Option<YieldReason>) where
        F: FnMut(YieldReason) -> bool,

        requires
            self.table().packed(),
            forall|i: int|
                0 <= i < self.pending().len() ==> call_requires(
                    func,
                    ((#[trigger] self.pending()[i]).0,),
                ),
        ensures
            match r {
                Some(reason) => exists|i: int| #[trigger]
                    first_chosen(func, self.pending(), i) && reason == self.pending()[i].0,
                None => none_chosen(func, self.pending()),
            },
    {
        let mut choose_fn = func;
        let len: usize = self.pending_futures.len();
        let mut i: usize = 0;
        while i < len
            invariant
                choose_fn == func,
                self.table().packed(),
                i <= len,
                len == self.pending().len(),
                forall|j: int|
                    0 <= j < self.pending().len() ==> call_requires(
                        func,
                        ((#[trigger] self.pending()[j]).0,),
                    ),
                forall|j: int|
                    0 <= j < i ==> call_ensures(func, ((#[trigger] self.pending()[j]).0,), false),
            decreases len - i,
        {
            let reason: YieldReason = self.pending_futures.entry(i).0;
            assert(reason == self.pending()[i as int].0);
            if choose_fn(reason) {
                assert(first_chosen(func, self.pending(), i as int));
                return Some(reason);
            }
            i += 1;
        }
        None
    }

    /// A future that waits for `future_type`. It is not tracked before it is polled.
    pub fn new_pending_future(&self, future_type: YieldReason) -> (r: PendingFuture<YieldReason>)
        ensures
            r == PendingFuture::Unpolled(future_type),
    {
        PendingFuture::Unpolled(future_type)
    }

    /// Enters a future that waits for `future_type` in the table.
    fn track(&mut self, future_type: YieldReason) -> (r: Result<
        FutureDropGuard<YieldReason>,
        AsyncRuntimeError,
    >)
        requires
            obeys_order::<YieldReason>(),
            old(self).wf(),
            lookup(old(self).pending(), future_type) matches Some(n) ==> n < usize::MAX,
        ensures
            final(self).wf(),
            final(self).new_blockage(),
            final(self).unblocked() == old(self).unblocked(),
            match r {
                Ok(guard) => {
                    &&& has_room(old(self).pending(), future_type, MAX_PENDING)
                    &&& guard.reason() == future_type
                    &&& final(self).pending() == joined(old(self).pending(), future_type)
                },
                Err(e) => {
                    &&& !has_room(old(self).pending(), future_type, MAX_PENDING)
                    &&& e == AsyncRuntimeError::TooManyPending
                    &&& final(self).table() == old(self).table()
                },
            },
    {
        let ghost s = self.pending();
        self.has_new_future = true;
        match self.pending_futures.set_default(future_type, 0) {
            Ok(_) => {},
            Err(e) => {
                return Err(e);
            },
        }
        proof {
            lemma_key_at_rank(s, future_type);
            if !has_key(s, future_type) {
                lemma_inserted_sorted(s, future_type, 0usize);
                assert(updated(inserted(s, future_type, 0usize), future_type, 1) =~= inserted(
                    s,
                    future_type,
                    1,
                ));
            }
        }
        self.pending_futures.edit(
            &future_type,
            |v: usize| -> (w: usize)
                requires v < usize::MAX
                ensures w == v + 1
            { v + 1 },
        );
        assert(all_awaited(self.pending()));
        Ok(FutureDropGuard { future_type })
    }
}

/// The reason at `i` is the first that `func` answers true for.
pub open spec fn first_chosen<K, F: FnMut(K) -> bool>(func: F, s: Seq<(K, usize)>, i: int) -> bool {
    &&& 0 <= i < s.len()
    &&& call_ensures(func, (s[i].0,), true)
    &&& forall|j: int| 0 <= j < i ==> call_ensures(func, ((#[trigger] s[j]).0,), false)
}

/// `func` answers false for every reason.
pub open spec fn none_chosen<K, F: FnMut(K) -> bool>(func: F, s: Seq<(K, usize)>) -> bool {
    forall|i: int| 0 <= i < s.len() ==> call_ensures(func, ((#[trigger] s[i]).0,), false)
}

/// The place in the table that a future holds as long as it waits.
#[derive(Debug)]
pub struct FutureDropGuard<YieldReason: Copy + Eq + Ord> {
    future_type: YieldReason,
}

impl<YieldReason: Copy + Eq + Ord> FutureDropGuard<YieldReason> {
    /// The reason that the future waits for.
    pub closed spec fn reason(&self) -> YieldReason {
        self.future_type
    }

    /// Takes the response, if the reason that was unblocked is the one waited for.
    fn build<YieldResponse: PartialEq, const MAX_PENDING: usize>(
        &self,
        runtime: &mut AsyncRuntime<YieldReason, YieldResponse, MAX_PENDING>,
    ) -> (r: Option<YieldResponse>)
        requires
            obeys_order::<YieldReason>(),
        ensures
            final(runtime).table() == old(runtime).table(),
            final(runtime).new_blockage() == old(runtime).new_blockage(),
            if unblocks(old(runtime).unblocked(), self.reason()) {
                &&& r == Some((old(runtime).unblocked()->0).1)
                &&& final(runtime).unblocked() is None
            } else {
                &&& r is None
                &&& *final(runtime) == *old(runtime)
            },
    {
        let matches = match &runtime.has_unblock {
            Some((curr_type, _)) => same(curr_type, &self.future_type),
            None => false,
        };
        if matches {
            match runtime.has_unblock.take() {
                Some((_, status)) => Some(status),
                None => None,
            }
        } else {
            None
        }
    }

    /// Gives the place in the table back.
    fn release<YieldResponse: PartialEq, const MAX_PENDING: usize>(
        &self,
        runtime: &mut AsyncRuntime<YieldReason, YieldResponse, MAX_PENDING>,
    )
        requires
            obeys_order::<YieldReason>(),
            old(runtime).wf(),
        ensures
            final(runtime).wf(),
            final(runtime).unblocked() == old(runtime).unblocked(),
            final(runtime).new_blockage() == old(runtime).new_blockage(),
            final(runtime).pending() == departed(old(runtime).pending(), self.reason()),
    {
        let key: YieldReason = self.future_type;
        let ghost s = runtime.pending();
        runtime.pending_futures.edit(
            &key,
            |x: usize| -> (w: usize)
                ensures w == (if x > 0 { x - 1 } else { 0 })
            { if x > 0 { x - 1 } else { 0 } },
        );
        let ghost t = runtime.pending();
        proof {
            lemma_key_at_rank(s, key);
            lemma_key_at_rank(t, key);
            if has_key(s, key) {
                lemma_updated_sorted(s, key, (lookup(s, key)->0 - 1) as usize);
            }
        }
        let is_empty = runtime.pending_futures.read(
            &key,
            |x: &usize| -> (b: bool) ensures b == (*x == 0) { *x == 0 },
        );
        if let Some(true) = is_empty {
            runtime.pending_futures.remove(&key);
            proof {
                lemma_removed_sorted(s, key);
                assert(removed(t, key) =~= removed(s, key));
            }
        }
        assert(all_awaited(runtime.pending()));
    }
}

/// What it means to poll a future: `before` becomes `after`, the runtime goes from `start` to
/// `end`, and the answer is `r`.
pub open spec fn polled<K: Copy + Eq + Ord, R: PartialEq, const N: usize>(
    before: PendingFuture<K>,
    start: AsyncRuntime<K, R, N>,
    after: PendingFuture<K>,
    end: AsyncRuntime<K, R, N>,
    r: Option<Result<R, AsyncRuntimeError>>,
) -> bool {
    match before {
        PendingFuture::Unpolled(reason) => {
            &&& end.new_blockage()
            &&& if !has_room(start.pending(), reason, N) {
                &&& r == Some(Err::<R, AsyncRuntimeError>(AsyncRuntimeError::TooManyPending))
                &&& after is Finished
                &&& end.unblocked() == start.unblocked()
                &&& end.table() == start.table()
            } else if unblocks(start.unblocked(), reason) {
                &&& r == Some(Ok::<R, AsyncRuntimeError>((start.unblocked()->0).1))
                &&& after is Finished
                &&& end.unblocked() is None
                &&& end.pending() == start.pending()
            } else {
                &&& r is None
                &&& after matches PendingFuture::Waiting(guard) && guard.reason() == reason
                &&& end.unblocked() == start.unblocked()
                &&& end.pending() == joined(start.pending(), reason)
            }
        },
        PendingFuture::Waiting(guard) => {
            &&& end.new_blockage() == start.new_blockage()
            &&& if unblocks(start.unblocked(), guard.reason()) {
                &&& r == Some(Ok::<R, AsyncRuntimeError>((start.unblocked()->0).1))
                &&& after is Finished
                &&& end.unblocked() is None
                &&& end.pending() == departed(start.pending(), guard.reason())
            } else {
                &&& r is None
                &&& after == before
                &&& end == start
            }
        },
        PendingFuture::Finished => true,
    }
}

/// What it means to abandon a future: `before` becomes `after`, and the runtime goes from `start`
/// to `end`.
pub open spec fn cancelled<K: Copy + Eq + Ord, R: PartialEq, const N: usize>(
    before: PendingFuture<K>,
    start: AsyncRuntime<K, R, N>,
    after: PendingFuture<K>,
    end: AsyncRuntime<K, R, N>,
) -> bool {
    &&& after is Finished
    &&& end.unblocked() == start.unblocked()
    &&& end.new_blockage() == start.new_blockage()
    &&& match before {
        PendingFuture::Waiting(guard) => end.pending() == departed(start.pending(), guard.reason()),
        _ => end == start,
    }
}

/// A future that waits for a reason.
#[derive(Debug)]
pub enum PendingFuture<YieldReason: Copy + Eq + Ord> {
    /// Not polled yet, and so not tracked.
    Unpolled(YieldReason),
    /// Tracked, and waiting for its reason to be unblocked.
    Waiting(FutureDropGuard<YieldReason>),
    /// Done.
    Finished,
}

impl<YieldReason: Copy + Eq + Ord> PendingFuture<YieldReason> {
    /// Goes on as far as it can. `None` means that the future still waits.
    ///
    /// The first time it is polled the future enters its reason in the table, or fails if there is
    /// no room for it. It then waits until its reason is unblocked, takes the response, and gives
    /// its place in the table back.
    pub fn poll<YieldResponse: PartialEq, const MAX_PENDING: usize>(
        &mut self,
        runtime: &mut AsyncRuntime<YieldReason, YieldResponse, MAX_PENDING>,
    ) -> (r: Option<Result<YieldResponse, AsyncRuntimeError>>)
        requires
            obeys_order::<YieldReason>(),
            old(runtime).wf(),
            !(*old(self) is Finished),
            *old(self) matches PendingFuture::Unpolled(reason) ==> (lookup(
                old(runtime).pending(),
                reason,
            ) matches Some(n) ==> n < usize::MAX),
        ensures
            final(runtime).wf(),
            polled(*old(self), *old(runtime), *final(self), *final(runtime), r),
    {
        if let PendingFuture::Unpolled(reason) = &*self {
            proof {
                lemma_joining_undone(runtime.pending(), *reason);
            }
            match runtime.track(*reason) {
                Ok(guard) => {
                    *self = PendingFuture::Waiting(guard);
                },
                Err(e) => {
                    *self = PendingFuture::Finished;
                    return Some(Err(e));
                },
            }
        }
        let answer = match &*self {
            PendingFuture::Waiting(guard) => {
                let answer = guard.build(runtime);
                if answer.is_some() {
                    guard.release(runtime);
                }
                answer
            },
            _ => None,
        };
        match answer {
            Some(status) => {
                *self = PendingFuture::Finished;
                Some(Ok(status))
            },
            None => None,
        }
    }

    /// Abandons the future: what it holds in the table is given back.
    pub fn cancel<YieldResponse: PartialEq, const MAX_PENDING: usize>(
        &mut self,
        runtime: &mut AsyncRuntime<YieldReason, YieldResponse, MAX_PENDING>,
    )
        requires
            obeys_order::<YieldReason>(),
            old(runtime).wf(),
        ensures
            final(runtime).wf(),
            cancelled(*old(self), *old(runtime), *final(self), *final(runtime)),
    {
        if let PendingFuture::Waiting(guard) = &*self {
            guard.release(runtime);
        }
        *self = PendingFuture::Finished;
    }
}

/// A future that comes and goes leaves the table as it was.
pub proof fn lemma_joining_undone<K: Ord>(s: Seq<(K, usize)>, reason: K)
    requires
        obeys_order::<K>(),
        sorted(s),
        all_awaited(s),
        lookup(s, reason) matches Some(n) ==> n < usize::MAX,
    ensures
        departed(joined(s, reason), reason) == s,
        sorted(joined(s, reason)),
        all_awaited(joined(s, reason)),
        has_key(joined(s, reason), reason),
{
    lemma_key_at_rank(s, reason);
    let t = joined(s, reason);
    match lookup(s, reason) {
        Some(n) => {
            lemma_updated_sorted(s, reason, (n + 1) as usize);
            assert(updated(t, reason, n) =~= s);
        },
        None => {
            lemma_inserted_sorted(s, reason, 1usize);
            assert(t.remove(rank(s, reason)) =~= s);
        },
    }
}

} // verus!
