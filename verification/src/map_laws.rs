//! What the map of a fixed size is for, stated of its calls: which keys it has, with which values.
use vstd::arithmetic::div_mod::{
    lemma_fundamental_div_mod, lemma_fundamental_div_mod_converse, lemma_small_mod,
};
use vstd::prelude::*;

use crate::common::{
    below, first_found, got_past, moved_within, none_found, AsyncRuntimeError, FixedSizedMap,
    _move_within,
};
use crate::entries::{
    has_key, key_at, lemma_inserted_sorted, lemma_key_at_rank, lemma_lookup_inserted,
    lemma_lookup_joined, lemma_lookup_removed, lemma_lookup_updated, lemma_removed_sorted,
    lemma_updated_sorted, lookup, sorted, updated,
};
use crate::order::{key_eq, key_lt, obeys_order};

verus! {

/// Numbers are keys in their own order.
pub proof fn lemma_numbers_ascend()
    ensures
        obeys_order::<u64>(),
        forall|a: u64, b: u64| #[trigger] key_lt(a, b) <==> a < b,
        forall|a: u64, b: u64| #[trigger] key_eq(a, b) <==> a == b,
{
}

/// The value of a key is that of the one entry that has the key. A key is missing exactly if no
/// entry has it.
pub proof fn lemma_lookup_is_entry<K: Ord, V>(s: Seq<(K, V)>, key: K)
    requires
        obeys_order::<K>(),
        sorted(s),
    ensures
        forall|i: int| 0 <= i < s.len() && key_eq((#[trigger] s[i]).0, key) ==> lookup(s, key)
            == Some(s[i].1),
        lookup(s, key) is None <==> (forall|i: int|
            0 <= i < s.len() ==> !key_eq((#[trigger] s[i]).0, key)),
        has_key(s, key) <==> lookup(s, key) is Some,
        forall|i: int, j: int|
            0 <= i < j < s.len() ==> key_lt((#[trigger] s[i]).0, (#[trigger] s[j]).0),
{
    lemma_key_at_rank(s, key);
    assert forall|i: int| 0 <= i < s.len() && key_eq((#[trigger] s[i]).0, key) implies lookup(s, key)
        == Some(s[i].1) by {
        assert(key_at(s, i, key));
    }
    if lookup(s, key) is Some {
        let i = choose|i: int| #[trigger] key_at(s, i, key);
        assert(key_eq(s[i].0, key));
    }
}

/// A new map has no key.
pub proof fn lemma_new_map_empty<K: Eq + Ord, V, const N: usize>(
    map: FixedSizedMap<K, V, N>,
    key: K,
    len: usize,
)
    requires
        call_ensures(FixedSizedMap::<K, V, N>::new, (), map),
        call_ensures(FixedSizedMap::<K, V, N>::len, (&map,), len),
    ensures
        map.wf(),
        len == 0,
        lookup(map@, key) is None,
{
}

/// The length is the number of entries, and never more than there are slots.
pub proof fn lemma_len_counts_entries<K: Eq + Ord, V, const N: usize>(
    map: FixedSizedMap<K, V, N>,
    len: usize,
)
    requires
        map.wf(),
        call_ensures(FixedSizedMap::<K, V, N>::len, (&map,), len),
    ensures
        len == map@.len(),
        len <= N,
{
}

/// A default is set exactly if the key is missing and there is a free slot. The key then has that
/// value, and every other key what it had. If the key is there, nothing changes; if it is missing
/// and all slots are taken, that is an error, and nothing changes either.
pub proof fn lemma_default_set<K: Eq + Ord, V, const N: usize>(key: K, val: V, other: K)
    requires
        obeys_order::<K>(),
    ensures
        forall|map: &mut FixedSizedMap<K, V, N>, r: Result<bool, AsyncRuntimeError>| #[trigger]
            call_ensures(FixedSizedMap::<K, V, N>::set_default, (map, key, val), r) && map.wf()
                ==> {
                let present = lookup(map@, key) is Some;
                let full = map@.len() == N;
                &&& r == Ok::<bool, AsyncRuntimeError>(false) <==> present
                &&& r == Err::<bool, AsyncRuntimeError>(AsyncRuntimeError::TooManyPending)
                    <==> !present && full
                &&& r == Ok::<bool, AsyncRuntimeError>(true) <==> !present && !full
                &&& final(map).wf()
                &&& final(map)@.len() == map@.len() + if r == Ok::<bool, AsyncRuntimeError>(true) {
                    1int
                } else {
                    0
                }
                &&& lookup(final(map)@, other) == if r == Ok::<bool, AsyncRuntimeError>(true)
                    && key_eq(key, other) {
                    Some(val)
                } else {
                    lookup(map@, other)
                }
            },
{
    assert forall|map: &mut FixedSizedMap<K, V, N>, r: Result<bool, AsyncRuntimeError>| #[trigger]
        call_ensures(FixedSizedMap::<K, V, N>::set_default, (map, key, val), r)
            && map.wf() implies {
        &&& final(map)@.len() == map@.len() + if r == Ok::<bool, AsyncRuntimeError>(true) {
            1int
        } else {
            0
        }
        &&& lookup(final(map)@, other) == if r == Ok::<bool, AsyncRuntimeError>(true) && key_eq(
            key,
            other,
        ) {
            Some(val)
        } else {
            lookup(map@, other)
        }
    } by {
        if r == Ok::<bool, AsyncRuntimeError>(true) {
            lemma_inserted_sorted(map@, key, val);
            lemma_lookup_inserted(map@, key, val, other);
        }
    }
}

/// A removal hands out the value of its key, and takes that key away and no other.
pub proof fn lemma_key_removed<K: Eq + Ord, V, const N: usize>(key: K, other: K)
    requires
        obeys_order::<K>(),
    ensures
        forall|map: &mut FixedSizedMap<K, V, N>, r: Option<V>| #[trigger]
            call_ensures(FixedSizedMap::<K, V, N>::remove, (map, &key), r) && map.wf() ==> {
                &&& r == lookup(map@, key)
                &&& final(map).wf()
                &&& final(map)@.len() == map@.len() - if r is Some {
                    1int
                } else {
                    0
                }
                &&& lookup(final(map)@, other) == if key_eq(key, other) {
                    None
                } else {
                    lookup(map@, other)
                }
            },
{
    assert forall|map: &mut FixedSizedMap<K, V, N>, r: Option<V>| #[trigger]
        call_ensures(FixedSizedMap::<K, V, N>::remove, (map, &key), r) && map.wf() implies {
        &&& final(map)@.len() == map@.len() - if r is Some {
            1int
        } else {
            0
        }
        &&& lookup(final(map)@, other) == if key_eq(key, other) {
            None
        } else {
            lookup(map@, other)
        }
    } by {
        lemma_removed_sorted(map@, key);
        lemma_lookup_removed(map@, key, other);
    }
}

/// An edit replaces the value of its key by what the function makes of it, and no other value.
/// Without the key nothing changes.
pub proof fn lemma_key_edited<K: Eq + Ord, V, const N: usize, F: FnOnce(V) -> V>(
    key: K,
    edit_fn: F,
    other: K,
)
    requires
        obeys_order::<K>(),
    ensures
        forall|map: &mut FixedSizedMap<K, V, N>, r: bool| #[trigger]
            call_ensures(FixedSizedMap::<K, V, N>::edit, (map, &key, edit_fn), r) && map.wf()
                ==> {
                &&& r <==> lookup(map@, key) is Some
                &&& final(map).wf()
                &&& final(map)@.len() == map@.len()
                &&& !key_eq(key, other) || !r ==> lookup(final(map)@, other) == lookup(map@, other)
                &&& key_eq(key, other) && r ==> lookup(final(map)@, other) is Some && call_ensures(
                    edit_fn,
                    (lookup(map@, key)->0,),
                    lookup(final(map)@, other)->0,
                )
            },
{
    assert forall|map: &mut FixedSizedMap<K, V, N>, r: bool| #[trigger]
        call_ensures(FixedSizedMap::<K, V, N>::edit, (map, &key, edit_fn), r) && map.wf() implies {
        &&& final(map)@.len() == map@.len()
        &&& !key_eq(key, other) || !r ==> lookup(final(map)@, other) == lookup(map@, other)
        &&& key_eq(key, other) && r ==> lookup(final(map)@, other) is Some && call_ensures(
            edit_fn,
            (lookup(map@, key)->0,),
            lookup(final(map)@, other)->0,
        )
    } by {
        if r {
            let val = choose|val: V| #[trigger]
                call_ensures(edit_fn, (lookup(map@, key)->0,), val) && final(map)@
                    == updated(map@, key, val);
            lemma_updated_sorted(map@, key, val);
            lemma_lookup_updated(map@, key, val, other);
        }
    }
}

/// A read shows the value of its key, or nothing if the key is missing.
pub proof fn lemma_key_read<K: Eq + Ord, V, const N: usize, T, F: Fn(&V) -> T>(
    map: FixedSizedMap<K, V, N>,
    key: K,
    read_fn: F,
    r: Option<T>,
)
    requires
        call_ensures(FixedSizedMap::<K, V, N>::read::<T>, (&map, &key, read_fn), r),
    ensures
        r is Some <==> lookup(map@, key) is Some,
        r matches Some(shown) ==> call_ensures(read_fn, (&lookup(map@, key)->0,), shown),
{
}

/// What is read at an index is the entry with as many entries below it, or nothing behind the last.
pub proof fn lemma_index_read<K: Eq + Ord, V, const N: usize, T, F: Fn(&(K, V)) -> T>(
    map: FixedSizedMap<K, V, N>,
    idx: usize,
    read_fn: F,
    r: Option<T>,
)
    requires
        map.wf(),
        call_ensures(FixedSizedMap::<K, V, N>::read_idx::<T>, (&map, idx, read_fn), r),
    ensures
        r is Some <==> idx < map@.len(),
        r matches Some(shown) ==> call_ensures(read_fn, (&map@[idx as int],), shown),
        forall|i: int|
            0 <= i < map@.len() && idx < map@.len() ==> (i < idx <==> key_lt(
                (#[trigger] map@[i]).0,
                map@[idx as int].0,
            )) || !obeys_order::<K>(),
{
    assert forall|i: int| 0 <= i < map@.len() && idx < map@.len() && obeys_order::<K>() implies (i
        < idx <==> key_lt((#[trigger] map@[i]).0, map@[idx as int].0)) by {
        if i > idx {
            assert(key_lt(map@[idx as int].0, map@[i].0));
        } else if i == idx {
            assert(key_eq(map@[i].0, map@[i].0));
        }
    }
}

/// If the condition is `wanted`, a search finds the entry with the smallest key that is wanted, and
/// finds nothing only if none is.
pub proof fn lemma_smallest_wanted_found<
    K: Eq + Ord,
    V,
    const N: usize,
    T,
    F: FnMut(&Option<(K, V)>) -> bool,
    G: Fn(&(K, V)) -> T,
>(
    map: FixedSizedMap<K, V, N>,
    find_fn: F,
    result_fn: G,
    wanted: spec_fn((K, V)) -> bool,
    r: Option<T>,
)
    requires
        map.wf(),
        forall|entry: (K, V), b: bool| #[trigger]
            call_ensures(find_fn, (&Some(entry),), b) ==> b == wanted(entry),
        call_ensures(FixedSizedMap::<K, V, N>::find::<T>, (&map, find_fn, result_fn), r),
    ensures
        r is None ==> forall|i: int| 0 <= i < map@.len() ==> !wanted(#[trigger] map@[i]),
        r matches Some(shown) ==> exists|i: int|
            #![trigger map@[i]]
            {
                &&& 0 <= i < map@.len()
                &&& wanted(map@[i])
                &&& call_ensures(result_fn, (&map@[i],), shown)
                &&& forall|j: int| 0 <= j < i ==> !wanted(#[trigger] map@[j])
            },
{
    match r {
        None => {
            assert(none_found(find_fn, map@));
            assert forall|i: int| 0 <= i < map@.len() implies !wanted(#[trigger] map@[i]) by {
                assert(call_ensures(find_fn, (&Some(map@[i]),), false));
            }
        },
        Some(shown) => {
            let i = choose|i: int| #[trigger]
                first_found(find_fn, map@, i) && call_ensures(result_fn, (&map@[i],), shown);
            assert(call_ensures(find_fn, (&Some(map@[i]),), true));
            assert forall|j: int| 0 <= j < i implies !wanted(#[trigger] map@[j]) by {
                assert(call_ensures(find_fn, (&Some(map@[j]),), false));
            }
            assert(wanted(map@[i]));
        },
    }
}

/// An inner join keeps exactly the keys that the other map has too, with the values that they had
/// here.
pub proof fn lemma_shared_keys_kept<K: Eq + Ord, V, U, const N: usize>(
    other: FixedSizedMap<K, U, N>,
    key: K,
)
    requires
        obeys_order::<K>(),
        other.wf(),
    ensures
        forall|map: &mut FixedSizedMap<K, V, N>| #[trigger]
            call_ensures(FixedSizedMap::<K, V, N>::inner_join_keys::<U>, (map, &other), ())
                && map.wf() ==> {
                &&& final(map).wf()
                &&& lookup(other@, key) is Some ==> lookup(final(map)@, key) == lookup(map@, key)
                &&& lookup(other@, key) is None ==> lookup(final(map)@, key) is None
            },
{
    assert forall|map: &mut FixedSizedMap<K, V, N>| #[trigger]
        call_ensures(FixedSizedMap::<K, V, N>::inner_join_keys::<U>, (map, &other), ())
            && map.wf() implies {
        &&& lookup(other@, key) is Some ==> lookup(final(map)@, key) == lookup(map@, key)
        &&& lookup(other@, key) is None ==> lookup(final(map)@, key) is None
    } by {
        lemma_lookup_joined(map@, other@, key);
    }
}

/// If an edit relates old and new entries by `related` and stops at those that are `last`, then it
/// reaches every entry with no such one before it, and leaves the others alone.
pub proof fn lemma_edited_up_to_last<
    K: Eq + Ord,
    V,
    const N: usize,
    F: FnMut(&mut (K, V)) -> bool,
>(edit_fn: F, related: spec_fn((K, V), (K, V)) -> bool, last: spec_fn((K, V)) -> bool, i: int)
    requires
        forall|y: &mut (K, V), b: bool| #[trigger]
            call_ensures(edit_fn, (y,), b) ==> related(*y, *final(y)) && b == last(*y),
    ensures
        forall|map: &mut FixedSizedMap<K, V, N>| #[trigger]
            call_ensures(FixedSizedMap::<K, V, N>::map_edit, (map, edit_fn), ()) ==> {
                &&& final(map)@.len() == map@.len()
                &&& 0 <= i < map@.len() && (forall|j: int| 0 <= j < i ==> !last(#[trigger] map@[j]))
                    ==> related(map@[i], final(map)@[i])
                &&& 0 <= i < map@.len() && (exists|j: int| 0 <= j < i && last(#[trigger] map@[j]))
                    ==> final(map)@[i] == map@[i]
            },
{
    assert forall|map: &mut FixedSizedMap<K, V, N>| #[trigger]
        call_ensures(FixedSizedMap::<K, V, N>::map_edit, (map, edit_fn), ()) implies {
        &&& 0 <= i < map@.len() && (forall|j: int| 0 <= j < i ==> !last(#[trigger] map@[j]))
            ==> related(map@[i], final(map)@[i])
        &&& 0 <= i < map@.len() && (exists|j: int| 0 <= j < i && last(#[trigger] map@[j]))
            ==> final(map)@[i] == map@[i]
    } by {
        let s = map@;
        let t = final(map)@;
        let passed = choose|passed: int|
            {
                &&& #[trigger] got_past(passed, s.len() as int)
                &&& forall|i: int| #![trigger s[i]] #![trigger below(i, passed)]
                    below(i, passed) ==> exists|r: &mut (K, V)|
                        *r == s[i] && *final(r) == t[i] && #[trigger] call_ensures(
                            edit_fn,
                            (r,),
                            false,
                        )
                &&& passed < s.len() ==> exists|r: &mut (K, V)|
                    *r == s[passed] && *final(r) == t[passed] && #[trigger] call_ensures(
                        edit_fn,
                        (r,),
                        true,
                    )
                &&& forall|i: int| passed < i < s.len() ==> #[trigger] t[i] == s[i]
            };
        assert forall|j: int| 0 <= j < passed implies related(s[j], t[j]) && !last(
            #[trigger] s[j],
        ) by {
            assert(below(j, passed));
        }
        if passed < s.len() {
            assert(last(s[passed]) && related(s[passed], t[passed]));
        }
    }
}

/// A move takes the elements of the range to their new place in their order. It leaves everything
/// alone that is neither in the old place, nor in the new one, nor between them, and neither makes
/// nor loses an element.
pub proof fn lemma_move_reaches_place<T>(from: usize, to: usize, start: usize, k: int)
    requires
        from <= to,
    ensures
        forall|slice: &mut [T]| #[trigger]
            call_ensures(_move_within::<T>, (slice, from, to, start), ()) && to <= slice@.len()
                && start + (to - from) <= slice@.len() ==> {
                &&& final(slice)@ == moved_within(slice@, from as int, to as int, start as int)
                &&& final(slice)@.len() == slice@.len()
                &&& final(slice)@.to_multiset() == slice@.to_multiset()
                &&& 0 <= k < to - from ==> final(slice)@[start + k] == slice@[from + k]
                &&& (0 <= k < from && k < start) || (to <= k < slice@.len() && start + (to - from)
                    <= k) ==> final(slice)@[k] == slice@[k]
            },
{
}

/// Elements that move towards the front go one by one: the first changes places with what stands in
/// its new place, and then the others move.
pub proof fn lemma_move_front_first<T>(s: Seq<T>, from: int, to: int, start: int)
    requires
        0 <= start < from < to <= s.len(),
    ensures
        moved_within(s, from, to, start) == moved_within(
            s.update(start, s[from]).update(from, s[start]),
            from + 1,
            to,
            start + 1,
        ),
{
    let gap = from - start;
    let t = s.update(start, s[from]).update(from, s[start]);
    let a = moved_within(s, from, to, start);
    let b = moved_within(t, from + 1, to, start + 1);
    assert forall|k: int| 0 <= k < s.len() implies a[k] == b[k] by {
        if start + (to - from) <= k < to {
            lemma_next_mod(k - start - 1, gap);
            if from + 1 == to {
                lemma_rotated_once(k - start - 1, gap);
            }
        }
    }
    assert(a =~= b);
}

/// Elements that move towards the back go one by one: the last changes places with what stands in
/// its new place, and then the others move.
pub proof fn lemma_move_back_first<T>(s: Seq<T>, from: int, to: int, start: int)
    requires
        0 <= from < to,
        from < start,
        start + (to - from) <= s.len(),
    ensures
        moved_within(s, from, to, start) == moved_within(
            s.update(to - 1, s[start + (to - from) - 1]).update(
                start + (to - from) - 1,
                s[to - 1],
            ),
            from,
            to - 1,
            start,
        ),
{
    let gap = start - from;
    let end = start + (to - from);
    let t = s.update(to - 1, s[end - 1]).update(end - 1, s[to - 1]);
    let a = moved_within(s, from, to, start);
    let b = moved_within(t, from, to - 1, start);
    assert forall|k: int| 0 <= k < s.len() implies a[k] == b[k] by {
        if from <= k < start {
            lemma_next_mod(k - to, gap);
            if from + 1 == to {
                lemma_rotated_once(k - to, gap);
            }
        }
    }
    assert(a =~= b);
}

/// The remainders of neighbours are neighbours, or the one starts again.
proof fn lemma_next_mod(x: int, m: int)
    requires
        m > 0,
    ensures
        0 <= x % m < m,
        (x + 1) % m == if x % m == m - 1 {
            0
        } else {
            x % m + 1
        },
{
    lemma_fundamental_div_mod(x, m);
    let q = x / m;
    assert(0 <= x % m < m && 0 <= (x + 1) % m < m) by (nonlinear_arith)
        requires
            m > 0,
    ;
    assert(m * q == q * m && (q + 1) * m == q * m + m) by (nonlinear_arith);
    if x % m == m - 1 {
        lemma_fundamental_div_mod_converse(x + 1, m, q + 1, 0);
    } else {
        lemma_fundamental_div_mod_converse(x + 1, m, q, x % m + 1);
    }
}

/// A remainder of what lies within the first period.
proof fn lemma_rotated_once(x: int, m: int)
    requires
        m > 0,
    ensures
        0 <= x < m ==> x % m == x,
        -m <= x < 0 ==> x % m == x + m,
{
    if 0 <= x < m {
        lemma_small_mod(x as nat, m as nat);
    } else if -m <= x < 0 {
        lemma_fundamental_div_mod_converse(x, m, -1, x + m);
    }
}

} // verus!
