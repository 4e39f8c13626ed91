//! A fixed-sized map that is kept in a sorted array.
use vstd::arithmetic::div_mod::{lemma_mod_add_multiples_vanish, lemma_small_mod};
use vstd::prelude::*;
use vstd::seq_lib::{to_multiset_contains, to_multiset_update};

use crate::entries::{
    has_key, inserted, key_at, lemma_filter_sorted, lemma_inserted_sorted, lemma_key_at_rank,
    lemma_rank_is, lemma_removed_sorted, lemma_updated_sorted, lookup, rank, removed, sorted,
    updated,
};
use crate::order::{key_eq, key_lt, less, obeys_order, same};

verus! {

/// The errors that a state machine can meet inside its asynchronous code.
#[derive(Debug, PartialEq, Eq, Structural)]
pub enum AsyncRuntimeError {
    /// There is no room for another pending reason.
    TooManyPending,
    /// More than one future was unblocked in a single step.
    TooManyUnblocked,
}

impl AsyncRuntimeError {
    /// The text that describes the error to a person.
    pub fn message(&self) -> (r: &'static str)
        ensures
            r@ == match self {
                AsyncRuntimeError::TooManyPending => {
                    "Cannot enqueue more pending futures, exceeding MAX_PENDING"@
                },
                AsyncRuntimeError::TooManyUnblocked => {
                    "Unblocking more than one future in a single async step is disallowed"@
                },
            },
    {
        match self {
            AsyncRuntimeError::TooManyPending => {
                "Cannot enqueue more pending futures, exceeding MAX_PENDING"
            },
            AsyncRuntimeError::TooManyUnblocked => {
                "Unblocking more than one future in a single async step is disallowed"
            },
        }
    }
}

/// What `_move_within` makes of `s`. The elements of `from..to` stand at `start` and after it, in
/// their order. Those that had to make way fill the places that became free: they are rotated by
/// the number of elements that passed them.
pub open spec fn moved_within<T>(s: Seq<T>, from: int, to: int, start: int) -> Seq<T> {
    if from == to {
        s
    } else if start < from {
        Seq::new(
            s.len(),
            |k: int|
                if start <= k < start + (to - from) {
                    s[from + (k - start)]
                } else if start + (to - from) <= k < to {
                    s[start + (k - start) % (from - start)]
                } else {
                    s[k]
                },
        )
    } else if start > from {
        Seq::new(
            s.len(),
            |k: int|
                if start <= k < start + (to - from) {
                    s[from + (k - start)]
                } else if from <= k < start {
                    s[to + (k - to) % (start - from)]
                } else {
                    s[k]
                },
        )
    } else {
        s
    }
}

/// A move puts the elements of the range at their new place, in their order.
pub proof fn lemma_range_moved<T>(s: Seq<T>, from: int, to: int, start: int)
    requires
        0 <= from <= to <= s.len(),
        0 <= start <= start + (to - from) <= s.len(),
    ensures
        moved_within(s, from, to, start).subrange(start, start + (to - from)) == s.subrange(
            from,
            to,
        ),
{
    assert(moved_within(s, from, to, start).subrange(start, start + (to - from)) =~= s.subrange(
        from,
        to,
    ));
}

/// An exchange of two elements makes none, and loses none.
proof fn lemma_exchange_permutes<T>(s: Seq<T>, i: int, j: int)
    requires
        0 <= i < s.len(),
        0 <= j < s.len(),
        i != j,
    ensures
        s.update(i, s[j]).update(j, s[i]).to_multiset() == s.to_multiset(),
{
    broadcast use {vstd::multiset::group_multiset_axioms, to_multiset_contains, to_multiset_update};

    let t = s.update(i, s[j]);
    assert(s.contains(s[i]));
    assert(t.update(j, s[i]).to_multiset() =~= s.to_multiset());
}

/// Exchanges the elements at `i` and at `j`.
fn exchange<T>(slice: &mut [T], i: usize, j: usize)
    requires
        i < j < old(slice)@.len(),
    ensures
        final(slice)@ == old(slice)@.update(i as int, old(slice)@[j as int]).update(
            j as int,
            old(slice)@[i as int],
        ),
        final(slice)@.to_multiset() == old(slice)@.to_multiset(),
{
    let ghost s = slice@;
    let (low, high) = slice.split_at_mut(j);
    core::mem::swap(&mut low[i], &mut high[0]);
    proof {
        lemma_exchange_permutes(s, i as int, j as int);
        assert(slice@ =~= s.update(i as int, s[j as int]).update(j as int, s[i as int]));
    }
}

/// The "move" equivalent of `slice::copy_within`: the elements of `range_from..range_to` go to
/// `new_start` and after it.
pub fn _move_within<T>(slice: &mut [T], range_from: usize, range_to: usize, new_start: usize)
    requires
        range_from <= range_to,
        range_from < range_to && new_start != range_from ==> {
            &&& range_to <= old(slice)@.len()
            &&& new_start + (range_to - range_from) <= old(slice)@.len()
        },
    ensures
        final(slice)@ == moved_within(
            old(slice)@,
            range_from as int,
            range_to as int,
            new_start as int,
        ),
        final(slice)@.to_multiset() == old(slice)@.to_multiset(),
{
    let ghost s = slice@;
    assert(slice.len() == s.len());
    let new_end: usize = new_start + (range_to - range_from);
    if new_start < range_from {
        let ghost gap = range_from - new_start;
        let mut i: usize = range_from;
        let mut j: usize = new_start;
        assert forall|k: int| new_start <= k < range_from implies #[trigger] s[k] == s[new_start
            + (k - new_start) % gap] by {
            lemma_small_mod((k - new_start) as nat, gap as nat);
        }
        while i < range_to
            invariant
                gap == range_from - new_start,
                gap > 0,
                range_from <= i <= range_to,
                j == i - gap,
                range_from < range_to ==> range_to <= s.len(),
                slice@.len() == s.len(),
                slice@.to_multiset() == s.to_multiset(),
                forall|k: int| new_start <= k < j ==> #[trigger] slice@[k] == s[k + gap],
                forall|k: int|
                    j <= k < i ==> #[trigger] slice@[k] == s[new_start + (k - new_start) % gap],
                forall|k: int|
                    0 <= k < s.len() && !(new_start <= k < i) ==> #[trigger] slice@[k] == s[k],
            decreases range_to - i,
        {
            proof {
                lemma_mod_add_multiples_vanish(j - new_start, gap);
                assert(gap + (j - new_start) == i - new_start);
            }
            exchange(slice, j, i);
            j += 1;
            i += 1;
        }
    } else if new_start > range_from {
        let ghost gap = new_start - range_from;
        let mut i: usize = range_to;
        let mut j: usize = new_end;
        assert forall|k: int| range_to <= k < new_end implies #[trigger] s[k] == s[range_to + (k
            - range_to) % gap] by {
            lemma_small_mod((k - range_to) as nat, gap as nat);
        }
        while i > range_from
            invariant
                gap == new_start - range_from,
                gap > 0,
                range_from <= i <= range_to,
                j == i + gap,
                new_end == range_to + gap,
                range_from < range_to ==> new_end <= s.len(),
                slice@.len() == s.len(),
                slice@.to_multiset() == s.to_multiset(),
                forall|k: int| j <= k < new_end ==> #[trigger] slice@[k] == s[k - gap],
                forall|k: int|
                    i <= k < j ==> #[trigger] slice@[k] == s[range_to + (k - range_to) % gap],
                forall|k: int|
                    0 <= k < s.len() && !(i <= k < new_end) ==> #[trigger] slice@[k] == s[k],
            decreases i,
        {
            i -= 1;
            j -= 1;
            proof {
                lemma_mod_add_multiples_vanish(i - range_to, gap);
                assert(gap + (i - range_to) == j - range_to);
            }
            exchange(slice, i, j);
        }
    }
    assert(slice@ =~= moved_within(s, range_from as int, range_to as int, new_start as int));
}

/// `core::array::from_fn` fills an array by calling `f` once with each index, in ascending
/// order: what stands at an index is what `f` returned for it.
pub assume_specification<T, const N: usize, F>[ core::array::from_fn::<T, N, F> ](f: F) -> (r:
    [T; N])
    where F: FnMut(usize) -> T
    requires
        forall|i: usize| i < N ==> call_requires(f, (i,)),
    ensures
        forall|i: usize| i < N ==> call_ensures(f, (i,), #[trigger] r@[i as int]),
;

/// The entry at `i` is the first one that `find_fn` answers true for.
pub open spec fn first_found<K, V, F: FnMut(&Option<(K, V)>) -> bool>(
    find_fn: F,
    s: Seq<(K, V)>,
    i: int,
) -> bool {
    &&& 0 <= i < s.len()
    &&& call_ensures(find_fn, (&Some(s[i]),), true)
    &&& forall|j: int| 0 <= j < i ==> call_ensures(find_fn, (&Some(#[trigger] s[j]),), false)
}

/// `find_fn` answers false for every entry.
pub open spec fn none_found<K, V, F: FnMut(&Option<(K, V)>) -> bool>(
    find_fn: F,
    s: Seq<(K, V)>,
) -> bool {
    forall|i: int| 0 <= i < s.len() ==> call_ensures(find_fn, (&Some(#[trigger] s[i]),), false)
}

/// `i` is one of the first `n` indices.
pub open spec fn below(i: int, n: int) -> bool {
    0 <= i < n
}

/// An iteration over `len` items got past `passed` of them. If that is not all, it stopped at the
/// next one.
pub open spec fn got_past(passed: int, len: int) -> bool {
    0 <= passed <= len
}

/// A fixed-sized lookup map, implemented as a sorted array.
///
/// The entries fill the front of the array in ascending order of their keys; the slots behind them
/// are empty.
#[derive(Debug)]
pub struct FixedSizedMap<K: Eq + Ord, V, const N: usize> {
    items: [Option<(K, V)>; N],
    size: usize,
}

impl<K: Eq + Ord, V, const N: usize> View for FixedSizedMap<K, V, N> {
    type V = Seq<(K, V)>;

    /// The entries, in ascending order of their keys.
    open spec fn view(&self) -> Seq<(K, V)> {
        Seq::new(self.count(), |i: int| self.slots()[i]->0)
    }
}

impl<K: Eq + Ord, V, const N: usize> FixedSizedMap<K, V, N> {
    /// Every slot of the array, the empty ones included.
    pub closed spec fn slots(&self) -> Seq<Option<(K, V)>> {
        self.items@
    }

    /// The number of slots at the front that are in use.
    pub closed spec fn count(&self) -> nat {
        self.size as nat
    }

    /// The slots in use are filled, and the others are empty.
    pub open spec fn packed(&self) -> bool {
        &&& self.slots().len() == N
        &&& self.count() <= N
        &&& forall|i: int| 0 <= i < self.count() ==> #[trigger] self.slots()[i] is Some
        &&& forall|i: int| self.count() <= i < N ==> #[trigger] self.slots()[i] is None
    }

    /// What every operation relies on and keeps.
    pub open spec fn wf(&self) -> bool {
        &&& self.packed()
        &&& sorted(self@)
    }

    /// An empty map.
    pub fn new() -> (r: Self)
        ensures
            r.wf(),
            r@ == Seq::<(K, V)>::empty(),
    {
        let items = core::array::from_fn(
            |_i: usize| -> (slot: Option<(K, V)>) ensures slot is None { None },
        );
        let r = Self { items, size: 0 };
        assert forall|i: int| 0 <= i < N implies #[trigger] r.slots()[i] is None by {
            let j = i as usize;
            assert(r.items@[j as int] is None);
        }
        r
    }

    /// The number of entries.
    pub fn len(&self) -> (r: usize)
        ensures
            r == self@.len(),
            r == self.count(),
    {
        self.size
    }

    /// Looks for `key` among the entries, the empty slots standing behind all of them. `Ok` holds
    /// its index, `Err` the index that it would be inserted at.
    fn _search(&self, key: &K) -> (r: Result<usize, usize>)
        requires
            obeys_order::<K>(),
            self.wf(),
        ensures
            match r {
                Ok(i) => has_key(self@, *key) && i == rank(self@, *key) && i < self@.len(),
                Err(i) => !has_key(self@, *key) && i == rank(self@, *key) && i <= self@.len(),
            },
    {
        let mut low: usize = 0;
        let mut high: usize = self.size;
        while low < high
            invariant
                obeys_order::<K>(),
                self.wf(),
                low <= high <= self@.len(),
                forall|j: int| 0 <= j < low ==> key_lt(#[trigger] self@[j].0, *key),
                forall|j: int| high <= j < self@.len() ==> key_lt(*key, #[trigger] self@[j].0),
            decreases high - low,
        {
            let mid: usize = low + (high - low) / 2;
            assert(self.slots()[mid as int] is Some);
            match &self.items[mid] {
                Some((other, _)) => {
                    assert(self@[mid as int].0 == *other);
                    if same(other, key) {
                        proof {
                            assert(key_at(self@, mid as int, *key));
                            lemma_key_at_rank(self@, *key);
                        }
                        return Ok(mid);
                    }
                    if less(other, key) {
                        assert forall|j: int| 0 <= j < mid + 1 implies key_lt(
                            #[trigger] self@[j].0,
                            *key,
                        ) by {
                            if j < mid {
                                assert(key_lt(self@[j].0, self@[mid as int].0));
                            }
                        }
                        low = mid + 1;
                    } else {
                        assert forall|j: int| mid <= j < self@.len() implies key_lt(
                            *key,
                            #[trigger] self@[j].0,
                        ) by {
                            assert(key_lt(*key, self@[mid as int].0)) by {
                                assert(key_lt(self@[mid as int].0, *key) || key_eq(
                                    self@[mid as int].0,
                                    *key,
                                ) || key_lt(*key, self@[mid as int].0));
                            }
                            if j > mid {
                                assert(key_lt(self@[mid as int].0, self@[j].0));
                            }
                        }
                        high = mid;
                    }
                },
                None => {
                    high = mid;
                },
            }
        }
        proof {
            assert forall|j: int| low <= j < self@.len() implies !key_lt(
                #[trigger] self@[j].0,
                *key,
            ) by {
                assert(key_lt(*key, self@[j].0));
            }
            lemma_rank_is(self@, *key, low as int);
            lemma_key_at_rank(self@, *key);
            if key_at(self@, low as int, *key) {
                assert(key_lt(*key, self@[low as int].0));
                assert(key_eq(*key, self@[low as int].0));
            }
        }
        Err(low)
    }

    /// Edits the value of `key`. Without such an entry nothing happens, and the answer is false.
    pub fn edit(&mut self, key: &K, edit_fn: impl FnOnce(V) -> V) -> (r: bool)
        requires
            obeys_order::<K>(),
            old(self).wf(),
            lookup(old(self)@, *key) matches Some(val) ==> call_requires(edit_fn, (val,)),
        ensures
            final(self).wf(),
            r == has_key(old(self)@, *key),
            !r ==> *final(self) == *old(self),
            r ==> exists|val: V|
                {
                    &&& #[trigger] call_ensures(edit_fn, (lookup(old(self)@, *key)->0,), val)
                    &&& final(self)@ == updated(old(self)@, *key, val)
                },
    {
        match self._search(key) {
            Ok(index) => {
                let ghost before = self@;
                assert(self.slots()[index as int] is Some);
                let (key2, val) = self.items[index].take().unwrap();
                let new_val = edit_fn(val);
                self.items[index] = Some((key2, new_val));
                proof {
                    lemma_updated_sorted(before, *key, new_val);
                    assert(self@ =~= updated(before, *key, new_val));
                }
                true
            },
            Err(_) => false,
        }
    }

    /// Reads the value of `key`.
    pub fn read<T>(&self, key: &K, read_fn: impl Fn(&V) -> T) -> (r: Option<T>)
        requires
            obeys_order::<K>(),
            self.wf(),
            lookup(self@, *key) matches Some(val) ==> call_requires(read_fn, (&val,)),
        ensures
            match r {
                Some(t) => has_key(self@, *key) && call_ensures(
                    read_fn,
                    (&lookup(self@, *key)->0,),
                    t,
                ),
                None => !has_key(self@, *key),
            },
    {
        match self._search(key) {
            Ok(index) => {
                assert(self.slots()[index as int] is Some);
                let (_, val) = self.items[index].as_ref().unwrap();
                Some(read_fn(val))
            },
            Err(_) => None,
        }
    }

    /// Reads the entry in a slot of the array.
    pub fn read_idx<T>(&self, idx: usize, read_fn: impl Fn(&(K, V)) -> T) -> (r: Option<T>)
        requires
            idx < N,
            self.packed(),
            idx < self@.len() ==> call_requires(read_fn, (&self@[idx as int],)),
        ensures
            match r {
                Some(t) => idx < self@.len() && call_ensures(read_fn, (&self@[idx as int],), t),
                None => idx >= self@.len(),
            },
    {
        match self.items[idx].as_ref() {
            None => None,
            Some(entry) => {
                assert(self.slots()[idx as int] is Some);
                Some(read_fn(entry))
            },
        }
    }

    /// The entry at `idx`.
    pub(crate) fn entry(&self, idx: usize) -> (r: &(K, V))
        requires
            self.packed(),
            idx < self@.len(),
        ensures
            *r == self@[idx as int],
    {
        assert(self.slots()[idx as int] is Some);
        self.items[idx].as_ref().unwrap()
    }

    /// The first entry that `find_fn` answers true for, as `result_fn` shows it.
    pub fn find<T>(
        &self,
        find_fn: impl FnMut(&Option<(K, V)>) -> bool,
        result_fn: impl Fn(&(K, V)) -> T,
    ) -> (r: Option<T>)
        requires
            self.packed(),
            forall|i: int|
                0 <= i < self@.len() ==> call_requires(find_fn, (&Some(#[trigger] self@[i]),)),
            forall|i: int|
                0 <= i < self@.len() ==> call_requires(result_fn, (&#[trigger] self@[i],)),
        ensures
            match r {
                Some(t) => exists|i: int| #[trigger]
                    first_found(find_fn, self@, i) && call_ensures(result_fn, (&self@[i],), t),
                None => none_found(find_fn, self@),
            },
    {
        let mut answer = find_fn;
        let mut i: usize = 0;
        while i < self.size
            invariant
                answer == find_fn,
                self.packed(),
                i <= self@.len(),
                forall|j: int|
                    0 <= j < self@.len() ==> call_requires(find_fn, (&Some(#[trigger] self@[j]),)),
                forall|j: int|
                    0 <= j < self@.len() ==> call_requires(result_fn, (&#[trigger] self@[j],)),
                forall|j: int|
                    0 <= j < i ==> call_ensures(find_fn, (&Some(#[trigger] self@[j]),), false),
            decreases self.size - i,
        {
            assert(self.slots()[i as int] is Some);
            assert(self.slots()[i as int] == Some(self@[i as int]));
            if answer(&self.items[i]) {
                assert(first_found(find_fn, self@, i as int));
                let entry = self.items[i].as_ref().unwrap();
                return Some(result_fn(entry));
            }
            i += 1;
        }
        None
    }

    /// Keeps only the entries whose keys `other` has too.
    pub fn inner_join_keys<U>(&mut self, other: &FixedSizedMap<K, U, N>)
        requires
            obeys_order::<K>(),
            old(self).wf(),
            other.wf(),
        ensures
            final(self).wf(),
            final(self)@ == old(self)@.filter(|e: (K, V)| has_key(other@, e.0)),
    {
        let ghost before = self@;
        let ghost shared = |e: (K, V)| has_key(other@, e.0);
        let size: usize = self.size;
        let mut i: usize = 0;
        let mut kept: usize = 0;
        assert(before.take(0).filter(shared) =~= Seq::<(K, V)>::empty()) by {
            reveal(Seq::filter);
        }
        while i < size
            invariant
                obeys_order::<K>(),
                other.wf(),
                shared == |e: (K, V)| has_key(other@, e.0),
                kept <= i <= size <= N,
                size == before.len(),
                self.items@.len() == N,
                before.take(i as int).filter(shared).len() == kept,
                forall|k: int|
                    0 <= k < kept ==> #[trigger] self.items@[k] == Some(
                        before.take(i as int).filter(shared)[k],
                    ),
                forall|k: int| kept <= k < i ==> #[trigger] self.items@[k] is None,
                forall|k: int| i <= k < size ==> #[trigger] self.items@[k] == Some(before[k]),
                forall|k: int| size <= k < N ==> #[trigger] self.items@[k] is None,
            decreases size - i,
        {
            let ghost done = before.take(i as int).filter(shared);
            proof {
                let t = before.take(i + 1);
                assert(t.drop_last() =~= before.take(i as int));
                assert(t.last() == before[i as int]);
                reveal(Seq::filter);
                assert(t.filter(shared) == if shared(before[i as int]) {
                    done.push(before[i as int])
                } else {
                    done
                });
            }
            assert(self.items@[i as int] == Some(before[i as int]));
            let keep = match &self.items[i] {
                Some((key, _)) => other._search(key).is_ok(),
                None => false,
            };
            let item = self.items[i].take();
            if keep {
                self.items[kept] = item;
                kept += 1;
            }
            i += 1;
        }
        self.size = kept;
        proof {
            assert(before.take(size as int) =~= before);
            assert(self@ =~= before.filter(shared));
            lemma_filter_sorted(before, shared);
        }
    }

    /// Edits the entries one by one. `edit_fn` answers true to stop.
    ///
    /// The map stays well-formed as long as the keys stay in ascending order.
    pub fn map_edit(&mut self, edit_fn: impl FnMut(&mut (K, V)) -> bool)
        requires
            old(self).packed(),
            forall|r: &mut (K, V)| #![trigger call_requires(edit_fn, (r,))]
                old(self)@.contains(*r) ==> call_requires(edit_fn, (r,)),
        ensures
            final(self).packed(),
            final(self)@.len() == old(self)@.len(),
            exists|passed: int|
                {
                    &&& #[trigger] got_past(passed, old(self)@.len() as int)
                    &&& forall|i: int| #![trigger old(self)@[i]] #![trigger below(i, passed)]
                        below(i, passed) ==> exists|r: &mut (K, V)|
                            *r == old(self)@[i] && *final(r) == final(self)@[i]
                                && #[trigger] call_ensures(edit_fn, (r,), false)
                    &&& passed < old(self)@.len() ==> exists|r: &mut (K, V)|
                        *r == old(self)@[passed] && *final(r) == final(self)@[passed]
                            && #[trigger] call_ensures(edit_fn, (r,), true)
                    &&& forall|i: int|
                        passed < i < old(self)@.len() ==> #[trigger] final(self)@[i]
                            == old(self)@[i]
                },
    {
        let mut edit = edit_fn;
        let mut i: usize = 0;
        while i < self.size
            invariant
                edit == edit_fn,
                self.packed(),
                self@.len() == old(self)@.len(),
                i <= self@.len(),
                forall|r: &mut (K, V)| #![trigger call_requires(edit_fn, (r,))]
                    old(self)@.contains(*r) ==> call_requires(edit_fn, (r,)),
                forall|j: int| #![trigger old(self)@[j]] #![trigger below(j, i as int)]
                    below(j, i as int) ==> exists|r: &mut (K, V)|
                        *r == old(self)@[j] && *final(r) == self@[j] && #[trigger] call_ensures(
                            edit_fn,
                            (r,),
                            false,
                        ),
                forall|j: int| i <= j < self@.len() ==> #[trigger] self@[j] == old(self)@[j],
            decreases self.size - i,
        {
            let ghost prev = self@;
            assert(self.slots()[i as int] is Some);
            assert(self@[i as int] == old(self)@[i as int]);
            assert(old(self)@.contains(self@[i as int]));
            let mut entry = self.items[i].take().unwrap();
            let stop = edit(&mut entry);
            self.items[i] = Some(entry);
            proof {
                assert(self@[i as int] == entry);
                assert forall|j: int| 0 <= j < prev.len() && j != i implies #[trigger] self@[j]
                    == prev[j] by {}
                assert forall|j: int| i < j < prev.len() implies #[trigger] self@[j]
                    == old(self)@[j] by {
                    assert(prev[j] == old(self)@[j]);
                }
                assert forall|j: int| #![trigger below(j, i + 1)]
                    below(j, i + 1) && j < i implies exists|r: &mut (K, V)|
                    *r == old(self)@[j] && *final(r) == self@[j] && #[trigger] call_ensures(
                        edit_fn,
                        (r,),
                        false,
                    ) by {
                    assert(self@[j] == prev[j]);
                    assert(below(j, i as int));
                }
                assert(got_past(i as int, prev.len() as int));
            }
            if stop {
                return ;
            }
            i += 1;
        }
        assert(got_past(i as int, self@.len() as int));
    }

    /// Replaces the value of the entry at `idx`.
    pub(crate) fn put(&mut self, idx: usize, val: V)
        requires
            old(self).packed(),
            idx < old(self)@.len(),
        ensures
            final(self).packed(),
            final(self)@ == old(self)@.update(idx as int, (old(self)@[idx as int].0, val)),
    {
        let ghost before = self@;
        assert(self.slots()[idx as int] is Some);
        let (key, _) = self.items[idx].take().unwrap();
        self.items[idx] = Some((key, val));
        assert(self@ =~= before.update(idx as int, (before[idx as int].0, val)));
    }

    /// Hands `len` slots of the array to `edit_fn`, from `start` on.
    pub(crate) fn edit_slots<T>(
        &mut self,
        start: usize,
        len: usize,
        edit_fn: impl FnOnce(&mut [Option<(K, V)>]) -> T,
    ) -> (r: T)
        requires
            start + len <= N,
            forall|y: &mut [Option<(K, V)>]| #![trigger call_requires(edit_fn, (y,))]
                y@ == old(self).slots().subrange(start as int, start + len) ==> call_requires(
                    edit_fn,
                    (y,),
                ),
        ensures
            final(self).count() == old(self).count(),
            final(self).slots().len() == N,
            exists|y: &mut [Option<(K, V)>]|
                {
                    &&& y@ == old(self).slots().subrange(start as int, start + len)
                    &&& final(y)@ == final(self).slots().subrange(start as int, start + len)
                    &&& #[trigger] call_ensures(edit_fn, (y,), r)
                },
            forall|i: int|
                0 <= i < N && !(start <= i < start + len) ==> #[trigger] final(self).slots()[i]
                    == old(self).slots()[i],
    {
        let ghost before = self.slots();
        let slots: &mut [Option<(K, V)>] = &mut self.items;
        let (front, rest) = slots.split_at_mut(start);
        let (batch, back) = rest.split_at_mut(len);
        assert(batch@ =~= before.subrange(start as int, start + len));
        let result = edit_fn(batch);
        proof {
            let now = self.slots();
            assert(now == front@ + (final(batch)@ + back@));
            assert(final(batch)@ =~= now.subrange(start as int, start + len));
        }
        result
    }

    /// Removes the entry of `key` and returns its value.
    pub fn remove(&mut self, key: &K) -> (r: Option<V>)
        requires
            obeys_order::<K>(),
            old(self).wf(),
        ensures
            final(self).wf(),
            r == lookup(old(self)@, *key),
            final(self)@ == removed(old(self)@, *key),
            r is None ==> *final(self) == *old(self),
    {
        match self._search(key) {
            Ok(index) => {
                let ghost before = *self;
                let size: usize = self.size;
                assert(self.slots()[index as int] is Some);
                let (_, val) = self.items[index].take().unwrap();
                _move_within(&mut self.items, index + 1, size, index);
                self.items[size - 1] = None;
                self.size = size - 1;
                proof {
                    lemma_removed_sorted(before@, *key);
                    assert forall|i: int| 0 <= i < size - 1 implies self.slots()[i]
                        == before.slots()[if i < index {
                        i
                    } else {
                        i + 1
                    }] by {}
                    assert(self@ =~= removed(before@, *key));
                }
                Some(val)
            },
            Err(_) => None,
        }
    }

    /// Adds an entry for `key` unless there is one. The answer is false if there was one.
    pub fn set_default(&mut self, key: K, val: V) -> (r: Result<bool, AsyncRuntimeError>)
        requires
            obeys_order::<K>(),
            old(self).wf(),
        ensures
            final(self).wf(),
            match r {
                Ok(true) => {
                    &&& !has_key(old(self)@, key)
                    &&& old(self)@.len() < N
                    &&& final(self)@ == inserted(old(self)@, key, val)
                },
                Ok(false) => has_key(old(self)@, key) && *final(self) == *old(self),
                Err(e) => {
                    &&& e == AsyncRuntimeError::TooManyPending
                    &&& !has_key(old(self)@, key)
                    &&& old(self)@.len() == N
                    &&& *final(self) == *old(self)
                },
            },
    {
        match self._search(&key) {
            Err(index) => {
                let size: usize = self.size;
                if size == N {
                    return Err(AsyncRuntimeError::TooManyPending);
                }
                let ghost before = *self;
                _move_within(&mut self.items, index, size, index + 1);
                self.items[index] = Some((key, val));
                self.size = size + 1;
                proof {
                    lemma_inserted_sorted(before@, key, val);
                    assert forall|i: int| 0 <= i < size + 1 && i != index implies self.slots()[i]
                        == before.slots()[if i < index {
                        i
                    } else {
                        i - 1
                    }] by {}
                    assert(self@ =~= inserted(before@, key, val));
                }
                Ok(true)
            },
            Ok(_) => Ok(false),
        }
    }
}

} // verus!
