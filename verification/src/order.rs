//! The total order that keys are compared by.
use vstd::prelude::*;
use vstd::std_specs::cmp::{PartialEqSpec, PartialOrdIs, PartialOrdSpec};

verus! {

/// `a` comes before `b`.
pub open spec fn key_lt<K: Ord>(a: K, b: K) -> bool {
    a.is_lt(&b)
}

/// `a` and `b` are the same key.
pub open spec fn key_eq<K: Ord>(a: K, b: K) -> bool {
    a.eq_spec(&b)
}

/// The comparison operators of `K` keep the promises that `Ord` and `Eq` document:
/// they compute a total order, and `==` is the equality that belongs to it.
pub open spec fn obeys_order<K: Ord>() -> bool {
    &&& K::obeys_eq_spec()
    &&& K::obeys_partial_cmp_spec()
    &&& forall|a: K| #[trigger] key_eq(a, a)
    &&& forall|a: K, b: K| #[trigger] key_eq(a, b) ==> key_eq(b, a)
    &&& forall|a: K, b: K, c: K| #[trigger] key_eq(a, b) && #[trigger] key_eq(b, c) ==> key_eq(a, c)
    &&& forall|a: K, b: K| #[trigger] key_lt(a, b) ==> !key_lt(b, a) && !key_eq(a, b)
    &&& forall|a: K, b: K| #[trigger] key_lt(a, b) || key_eq(a, b) || key_lt(b, a)
    &&& forall|a: K, b: K, c: K| #[trigger] key_lt(a, b) && #[trigger] key_lt(b, c) ==> key_lt(a, c)
}

/// A key below another is below every key equal to that one.
pub proof fn lemma_lt_eq<K: Ord>(a: K, b: K, c: K)
    requires
        obeys_order::<K>(),
        key_lt(a, b),
        key_eq(b, c),
    ensures
        key_lt(a, c),
{
    if key_eq(a, c) {
        assert(key_eq(c, b));
        assert(key_eq(a, b));
    } else if key_lt(c, a) {
        assert(key_lt(c, b));
        assert(key_eq(c, b));
    }
}

/// Compares two keys with `<`.
pub(crate) fn less<K: Ord>(a: &K, b: &K) -> (r: bool)
    requires
        obeys_order::<K>(),
    ensures
        r == key_lt(*a, *b),
{
    *a < *b
}

/// Compares two keys with `==`.
pub(crate) fn same<K: Ord>(a: &K, b: &K) -> (r: bool)
    requires
        obeys_order::<K>(),
    ensures
        r == key_eq(*a, *b),
{
    *a == *b
}

} // verus!
