//! The mathematical model of a sorted map: its entries, in ascending order of their keys.
use vstd::prelude::*;

use crate::order::{key_eq, key_lt, lemma_lt_eq, obeys_order};

verus! {

/// The keys ascend, and no key occurs twice.
pub open spec fn sorted<K: Ord, V>(s: Seq<(K, V)>) -> bool {
    forall|i: int, j: int| 0 <= i < j < s.len() ==> key_lt(#[trigger] s[i].0, #[trigger] s[j].0)
}

/// The entry at `i` has the key `key`.
pub open spec fn key_at<K: Ord, V>(s: Seq<(K, V)>, i: int, key: K) -> bool {
    0 <= i < s.len() && key_eq(s[i].0, key)
}

/// Some entry has the key `key`.
pub open spec fn has_key<K: Ord, V>(s: Seq<(K, V)>, key: K) -> bool {
    exists|i: int| #[trigger] key_at(s, i, key)
}

/// How many entries have a key below `key`: the index of `key` where it is
/// present, and the index that it would be inserted at where it is not.
pub open spec fn rank<K: Ord, V>(s: Seq<(K, V)>, key: K) -> int
    decreases s.len(),
{
    if s.len() == 0 {
        0
    } else {
        rank(s.drop_last(), key) + if key_lt(s.last().0, key) {
            1int
        } else {
            0
        }
    }
}

/// The value that belongs to `key`.
pub open spec fn lookup<K: Ord, V>(s: Seq<(K, V)>, key: K) -> Option<V> {
    if has_key(s, key) {
        Some(s[rank(s, key)].1)
    } else {
        None
    }
}

/// The entries with one more for `key`, at the place that the order gives it.
pub open spec fn inserted<K: Ord, V>(s: Seq<(K, V)>, key: K, val: V) -> Seq<(K, V)> {
    s.insert(rank(s, key), (key, val))
}

/// The entries without the one of `key`.
pub open spec fn removed<K: Ord, V>(s: Seq<(K, V)>, key: K) -> Seq<(K, V)> {
    if has_key(s, key) {
        s.remove(rank(s, key))
    } else {
        s
    }
}

/// The entries with the value of `key` replaced.
pub open spec fn updated<K: Ord, V>(s: Seq<(K, V)>, key: K, val: V) -> Seq<(K, V)> {
    s.update(rank(s, key), (s[rank(s, key)].0, val))
}

/// The rank is the index of an entry, or the number of entries.
pub proof fn lemma_rank_bounds<K: Ord, V>(s: Seq<(K, V)>, key: K)
    ensures
        0 <= rank(s, key) <= s.len(),
    decreases s.len(),
{
    if s.len() > 0 {
        lemma_rank_bounds(s.drop_last(), key);
    }
}

/// An index that parts the smaller keys from the others is the rank.
pub proof fn lemma_rank_is<K: Ord, V>(s: Seq<(K, V)>, key: K, i: int)
    requires
        0 <= i <= s.len(),
        forall|j: int| 0 <= j < i ==> key_lt(#[trigger] s[j].0, key),
        forall|j: int| i <= j < s.len() ==> !key_lt(#[trigger] s[j].0, key),
    ensures
        rank(s, key) == i,
    decreases s.len(),
{
    if s.len() > 0 {
        let t = s.drop_last();
        assert(forall|j: int| 0 <= j < t.len() ==> t[j] == s[j]);
        if i == s.len() {
            lemma_rank_is(t, key, i - 1);
        } else {
            lemma_rank_is(t, key, i);
        }
    }
}

/// In a sorted sequence the rank parts the smaller keys from the others.
pub proof fn lemma_rank_parts<K: Ord, V>(s: Seq<(K, V)>, key: K)
    requires
        obeys_order::<K>(),
        sorted(s),
    ensures
        0 <= rank(s, key) <= s.len(),
        forall|j: int| 0 <= j < rank(s, key) ==> key_lt(#[trigger] s[j].0, key),
        forall|j: int| rank(s, key) <= j < s.len() ==> !key_lt(#[trigger] s[j].0, key),
    decreases s.len(),
{
    lemma_rank_bounds(s, key);
    if s.len() > 0 {
        let t = s.drop_last();
        assert(forall|j: int| 0 <= j < t.len() ==> t[j] == s[j]);
        lemma_rank_parts(t, key);
        let r = rank(t, key);
        if key_lt(s.last().0, key) {
            if r < t.len() {
                assert(key_lt(s[r].0, s.last().0));
                assert(key_lt(s[r].0, key));
            }
        }
    }
}

/// A key stands at its rank or nowhere.
pub proof fn lemma_key_at_rank<K: Ord, V>(s: Seq<(K, V)>, key: K)
    requires
        obeys_order::<K>(),
        sorted(s),
    ensures
        0 <= rank(s, key) <= s.len(),
        has_key(s, key) <==> key_at(s, rank(s, key), key),
        forall|i: int| #[trigger] key_at(s, i, key) ==> i == rank(s, key),
{
    lemma_rank_parts(s, key);
    let r = rank(s, key);
    assert forall|i: int| #[trigger] key_at(s, i, key) implies i == r by {
        if i < r {
            assert(key_lt(s[i].0, key));
        } else if i > r {
            assert(key_lt(s[r].0, s[i].0));
            lemma_lt_eq(s[r].0, s[i].0, key);
        }
    }
    if has_key(s, key) {
        let i = choose|i: int| #[trigger] key_at(s, i, key);
        assert(key_at(s, i, key));
    }
}

/// Equal keys have the same rank.
pub proof fn lemma_rank_eq<K: Ord, V>(s: Seq<(K, V)>, a: K, b: K)
    requires
        obeys_order::<K>(),
        sorted(s),
        key_eq(a, b),
    ensures
        rank(s, a) == rank(s, b),
        has_key(s, a) == has_key(s, b),
{
    lemma_rank_parts(s, a);
    let r = rank(s, a);
    assert forall|j: int| 0 <= j < r implies key_lt(#[trigger] s[j].0, b) by {
        lemma_lt_eq(s[j].0, a, b);
    }
    assert forall|j: int| r <= j < s.len() implies !key_lt(#[trigger] s[j].0, b) by {
        if key_lt(s[j].0, b) {
            assert(key_eq(b, a));
            lemma_lt_eq(s[j].0, b, a);
        }
    }
    lemma_rank_is(s, b, r);
    lemma_key_at_rank(s, a);
    lemma_key_at_rank(s, b);
    assert(key_eq(b, a));
    assert(key_at(s, r, a) <==> key_at(s, r, b));
}

/// An insertion of a new key keeps the entries sorted.
pub proof fn lemma_inserted_sorted<K: Ord, V>(s: Seq<(K, V)>, key: K, val: V)
    requires
        obeys_order::<K>(),
        sorted(s),
        !has_key(s, key),
    ensures
        sorted(inserted(s, key, val)),
        inserted(s, key, val).len() == s.len() + 1,
        rank(inserted(s, key, val), key) == rank(s, key),
        has_key(inserted(s, key, val), key),
{
    lemma_rank_parts(s, key);
    let r = rank(s, key);
    let t = inserted(s, key, val);
    assert forall|j: int| r <= j < s.len() implies key_lt(key, #[trigger] s[j].0) by {
        assert(!key_at(s, j, key));
        assert(!key_lt(s[j].0, key));
        assert(key_lt(s[j].0, key) || key_eq(s[j].0, key) || key_lt(key, s[j].0));
    }
    assert forall|i: int, j: int| 0 <= i < j < t.len() implies key_lt(
        #[trigger] t[i].0,
        #[trigger] t[j].0,
    ) by {
        let i0 = if i < r { i } else { i - 1 };
        let j0 = if j < r { j } else { j - 1 };
        assert(i == r || t[i] == s[i0]);
        assert(j == r || t[j] == s[j0]);
    }
    assert forall|j: int| 0 <= j < r implies key_lt(#[trigger] t[j].0, key) by {
        assert(t[j] == s[j]);
    }
    assert forall|j: int| r <= j < t.len() implies !key_lt(#[trigger] t[j].0, key) by {
        if j > r {
            assert(t[j] == s[j - 1]);
        } else {
            assert(key_eq(key, key));
        }
    }
    lemma_rank_is(t, key, r);
    assert(key_at(t, r, key));
}

/// A removal keeps the entries sorted, and the key is gone.
pub proof fn lemma_removed_sorted<K: Ord, V>(s: Seq<(K, V)>, key: K)
    requires
        obeys_order::<K>(),
        sorted(s),
    ensures
        sorted(removed(s, key)),
        !has_key(removed(s, key), key),
        removed(s, key).len() == s.len() - if has_key(s, key) {
            1int
        } else {
            0
        },
{
    lemma_key_at_rank(s, key);
    let r = rank(s, key);
    let t = removed(s, key);
    if has_key(s, key) {
        assert forall|i: int, j: int| 0 <= i < j < t.len() implies key_lt(
            #[trigger] t[i].0,
            #[trigger] t[j].0,
        ) by {
            let i0 = if i < r { i } else { i + 1 };
            let j0 = if j < r { j } else { j + 1 };
            assert(t[i] == s[i0]);
            assert(t[j] == s[j0]);
        }
        assert forall|i: int| !(#[trigger] key_at(t, i, key)) by {
            if key_at(t, i, key) {
                let i0 = if i < r { i } else { i + 1 };
                assert(t[i] == s[i0]);
                assert(key_at(s, i0, key));
            }
        }
    }
}

/// A new value for a key leaves every key where it was.
pub proof fn lemma_updated_sorted<K: Ord, V>(s: Seq<(K, V)>, key: K, val: V)
    requires
        obeys_order::<K>(),
        sorted(s),
        has_key(s, key),
    ensures
        sorted(updated(s, key, val)),
        updated(s, key, val).len() == s.len(),
        rank(updated(s, key, val), key) == rank(s, key),
        has_key(updated(s, key, val), key),
{
    lemma_key_at_rank(s, key);
    lemma_rank_parts(s, key);
    let r = rank(s, key);
    let t = updated(s, key, val);
    assert(forall|i: int| 0 <= i < s.len() ==> t[i].0 == s[i].0);
    lemma_rank_is(t, key, r);
    assert(key_at(t, r, key));
}

/// A selection of the entries is sorted, too.
pub proof fn lemma_filter_sorted<K: Ord, V>(s: Seq<(K, V)>, pred: spec_fn((K, V)) -> bool)
    requires
        sorted(s),
    ensures
        sorted(s.filter(pred)),
    decreases s.len(),
{
    reveal(Seq::filter);
    if s.len() > 0 {
        let t = s.drop_last();
        assert forall|i: int, j: int| 0 <= i < j < t.len() implies key_lt(
            #[trigger] t[i].0,
            #[trigger] t[j].0,
        ) by {
            assert(t[i] == s[i] && t[j] == s[j]);
        }
        lemma_filter_sorted(t, pred);
        let f = t.filter(pred);
        assert forall|i: int| 0 <= i < f.len() implies key_lt(#[trigger] f[i].0, s.last().0) by {
            t.lemma_filter_contains_rev(pred, f[i]);
            let j = choose|j: int| 0 <= j < t.len() && t[j] == f[i];
            assert(s[j] == f[i]);
            assert(key_lt(s[j].0, s[s.len() - 1].0));
        }
    }
}

/// An insertion of a new key makes its value available, and leaves the other keys alone.
pub proof fn lemma_lookup_inserted<K: Ord, V>(s: Seq<(K, V)>, key: K, val: V, other: K)
    requires
        obeys_order::<K>(),
        sorted(s),
        !has_key(s, key),
    ensures
        lookup(inserted(s, key, val), other) == if key_eq(key, other) {
            Some(val)
        } else {
            lookup(s, other)
        },
{
    let r = rank(s, key);
    let t = inserted(s, key, val);
    lemma_inserted_sorted(s, key, val);
    lemma_key_at_rank(s, key);
    lemma_key_at_rank(s, other);
    lemma_key_at_rank(t, other);
    assert(t[r] == (key, val));
    if key_eq(key, other) {
        assert(key_at(t, r, other));
    } else {
        if has_key(s, other) {
            let i = rank(s, other);
            let j = if i < r { i } else { i + 1 };
            assert(t[j] == s[i]);
            assert(key_at(t, j, other));
        }
        if has_key(t, other) {
            let j = rank(t, other);
            let i = if j < r { j } else { j - 1 };
            assert(t[j] == s[i]);
            assert(key_at(s, i, other));
        }
    }
}

/// A removal takes the key away, and leaves the other keys alone.
pub proof fn lemma_lookup_removed<K: Ord, V>(s: Seq<(K, V)>, key: K, other: K)
    requires
        obeys_order::<K>(),
        sorted(s),
    ensures
        lookup(removed(s, key), other) == if key_eq(key, other) {
            None
        } else {
            lookup(s, other)
        },
{
    let r = rank(s, key);
    let t = removed(s, key);
    lemma_removed_sorted(s, key);
    lemma_key_at_rank(s, key);
    if key_eq(key, other) {
        lemma_rank_eq(t, key, other);
    } else if has_key(s, key) {
        lemma_key_at_rank(s, other);
        lemma_key_at_rank(t, other);
        if has_key(s, other) {
            let i = rank(s, other);
            if i == r {
                assert(key_eq(key, s[r].0));
            }
            let j = if i < r { i } else { i - 1 };
            assert(t[j] == s[i]);
            assert(key_at(t, j, other));
        }
        if has_key(t, other) {
            let j = rank(t, other);
            let i = if j < r { j } else { j + 1 };
            assert(t[j] == s[i]);
            assert(key_at(s, i, other));
        }
    }
}

/// A new value for a key is what is found there, and the other keys keep theirs.
pub proof fn lemma_lookup_updated<K: Ord, V>(s: Seq<(K, V)>, key: K, val: V, other: K)
    requires
        obeys_order::<K>(),
        sorted(s),
        has_key(s, key),
    ensures
        lookup(updated(s, key, val), other) == if key_eq(key, other) {
            Some(val)
        } else {
            lookup(s, other)
        },
{
    let r = rank(s, key);
    let t = updated(s, key, val);
    lemma_updated_sorted(s, key, val);
    lemma_key_at_rank(s, key);
    if key_eq(key, other) {
        lemma_rank_eq(t, key, other);
    } else {
        lemma_key_at_rank(s, other);
        lemma_key_at_rank(t, other);
        if has_key(s, other) {
            let i = rank(s, other);
            if i == r {
                assert(key_eq(key, s[r].0));
            }
            assert(key_at(t, i, other));
        }
        if has_key(t, other) {
            let j = rank(t, other);
            assert(key_at(s, j, other));
            if j == r {
                assert(key_eq(key, s[r].0));
            }
        }
    }
}

/// A key that is inserted and removed again leaves the entries as they were.
pub proof fn lemma_insertion_undone<K: Ord, V>(s: Seq<(K, V)>, key: K, val: V)
    requires
        obeys_order::<K>(),
        sorted(s),
        !has_key(s, key),
    ensures
        removed(inserted(s, key, val), key) == s,
{
    lemma_inserted_sorted(s, key, val);
    lemma_rank_bounds(s, key);
    assert(removed(inserted(s, key, val), key) =~= s);
}

/// An intersection with the keys of another map has the keys that both have, with the values that
/// they had here.
pub proof fn lemma_lookup_joined<K: Ord, V, U>(s: Seq<(K, V)>, other: Seq<(K, U)>, key: K)
    requires
        obeys_order::<K>(),
        sorted(s),
        sorted(other),
    ensures
        lookup(s.filter(|e: (K, V)| has_key(other, e.0)), key) == if has_key(other, key) {
            lookup(s, key)
        } else {
            None
        },
{
    let shared = |e: (K, V)| has_key(other, e.0);
    let t = s.filter(shared);
    lemma_filter_sorted(s, shared);
    lemma_key_at_rank(s, key);
    lemma_key_at_rank(t, key);
    if has_key(t, key) {
        let j = rank(t, key);
        s.lemma_filter_contains_rev(shared, t[j]);
        let i = choose|i: int| 0 <= i < s.len() && s[i] == t[j];
        assert(key_at(s, i, key));
        s.lemma_filter_pred(shared, j);
        lemma_rank_eq(other, t[j].0, key);
    }
    if has_key(s, key) && has_key(other, key) {
        let i = rank(s, key);
        lemma_rank_eq(other, s[i].0, key);
        s.lemma_filter_contains(shared, i);
        let j = choose|j: int| 0 <= j < t.len() && t[j] == s[i];
        assert(key_at(t, j, key));
    }
}

} // verus!
