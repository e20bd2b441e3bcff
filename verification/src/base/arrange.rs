//! Sorting that keeps what is equal in the order in which it came.

use vstd::prelude::*;

verus! {

/// The place at which `x` comes to stand in the sorted list `s`: the first
/// place at or behind `k` whose element may not stand in front of `x`.
pub open spec fn landing<T>(s: Seq<T>, x: T, first: spec_fn(T, T) -> bool, k: nat) -> nat
    decreases s.len() - k,
{
    if k >= s.len() || !first(s[k as int], x) {
        k
    } else {
        landing(s, x, first, k + 1)
    }
}

/// The first `n` elements of `list`, sorted: each element in turn is put
/// behind all that may stand in front of it, so that of two elements of
/// which each may stand in front of the other the one that came first
/// stays first.
pub open spec fn arranged<T>(list: Seq<T>, first: spec_fn(T, T) -> bool, n: nat) -> Seq<T>
    decreases n,
{
    if n == 0 {
        Seq::empty()
    } else {
        let before = arranged(list, first, (n - 1) as nat);
        before.insert(landing(before, list[n - 1], first, 0) as int, list[n - 1])
    }
}

} // verus!
