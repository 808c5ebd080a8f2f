//! The least index below a bound at which a predicate holds.
//!
//! Both the schema builder and the binder report the first problem they meet,
//! so their contracts speak of least indices throughout.

use vstd::prelude::*;

verus! {

/// `k` is below `n`, `p` holds at `k`, and at no index before it.
pub open spec fn is_least(p: spec_fn(int) -> bool, n: int, k: int) -> bool {
    &&& 0 <= k < n
    &&& p(k)
    &&& forall|j: int| 0 <= j < k ==> !#[trigger] p(j)
}

/// The least index below `n` at which `p` holds, if there is one.
pub open spec fn least(p: spec_fn(int) -> bool, n: int) -> Option<int> {
    if exists|k: int| is_least(p, n, k) {
        Some(choose|k: int| is_least(p, n, k))
    } else {
        None
    }
}

/// `least` is `None` exactly when `p` fails everywhere below `n`, and else
/// the one index that `is_least` holds of.
pub proof fn lemma_least(p: spec_fn(int) -> bool, n: int)
    ensures
        match least(p, n) {
            Some(k) => is_least(p, n, k),
            None => forall|j: int| 0 <= j < n ==> !#[trigger] p(j),
        },
        forall|k: int| is_least(p, n, k) ==> least(p, n) == Some(k),
{
    if n > 0 && !exists|k: int| is_least(p, n, k) {
        lemma_least_below(p, n, n);
    }
}

/// Below `m`, either `p` fails everywhere or some index is the least.
proof fn lemma_least_below(p: spec_fn(int) -> bool, n: int, m: int)
    requires
        0 <= m <= n,
    ensures
        (forall|j: int| 0 <= j < m ==> !#[trigger] p(j)) || (exists|k: int| is_least(p, n, k)),
    decreases m,
{
    if m > 0 {
        lemma_least_below(p, n, m - 1);
        if forall|j: int| 0 <= j < m - 1 ==> !#[trigger] p(j) {
            if p(m - 1) {
                assert(is_least(p, n, m - 1));
            }
        }
    }
}

/// Where `p` holds at `k` and nowhere before it, `k` is the least index.
pub proof fn lemma_least_is(p: spec_fn(int) -> bool, n: int, k: int)
    requires
        is_least(p, n, k),
    ensures
        least(p, n) == Some(k),
{
    lemma_least(p, n);
}

/// Where `p` fails everywhere below `n`, there is no least index.
pub proof fn lemma_least_none(p: spec_fn(int) -> bool, n: int)
    requires
        forall|j: int| 0 <= j < n ==> !#[trigger] p(j),
    ensures
        least(p, n) is None,
{
    lemma_least(p, n);
}

/// Predicates that agree below `n` have the same least index.
pub proof fn lemma_least_agrees(p: spec_fn(int) -> bool, q: spec_fn(int) -> bool, n: int)
    requires
        forall|j: int| 0 <= j < n ==> #[trigger] p(j) == #[trigger] q(j),
    ensures
        least(p, n) == least(q, n),
{
    lemma_least(p, n);
    lemma_least(q, n);
    match least(p, n) {
        Some(k) => {
            assert(is_least(q, n, k)) by {
                assert(q(k) == p(k));
                assert forall|j: int| 0 <= j < k implies !#[trigger] q(j) by {
                    assert(q(j) == p(j));
                }
            }
        },
        None => {
            if least(q, n) is Some {
                let k = least(q, n)->Some_0;
                assert(p(k) == q(k));
            }
        },
    }
}

} // verus!
