//! Facts about `count`, the number of indices that satisfy a predicate.

use crate::model::count;
use vstd::prelude::*;

verus! {

/// No more indices can satisfy a predicate than there are.
pub proof fn lemma_count_bound(n: nat, f: spec_fn(int) -> bool)
    ensures
        count(n, f) <= n,
    decreases n,
{
    if n > 0 {
        lemma_count_bound((n - 1) as nat, f);
    }
}

/// Predicates that agree below `n` have the same count.
pub proof fn lemma_count_same(n: nat, f: spec_fn(int) -> bool, g: spec_fn(int) -> bool)
    requires
        forall|i: int| #![trigger f(i)] #![trigger g(i)] 0 <= i < n ==> f(i) == g(i),
    ensures
        count(n, f) == count(n, g),
    decreases n,
{
    if n > 0 {
        lemma_count_same((n - 1) as nat, f, g);
    }
}

/// The count is zero exactly when no index satisfies the predicate.
pub proof fn lemma_count_zero(n: nat, f: spec_fn(int) -> bool)
    ensures
        count(n, f) == 0 <==> forall|i: int| 0 <= i < n ==> !#[trigger] f(i),
    decreases n,
{
    if n > 0 {
        lemma_count_zero((n - 1) as nat, f);
        if count(n, f) == 0 {
            assert forall|i: int| 0 <= i < n implies !#[trigger] f(i) by {
                if i < n - 1 {
                }
            }
        }
    }
}

/// Predicates that agree everywhere but at `k` differ in count by what
/// `k` contributes.
pub proof fn lemma_count_change(
    n: nat,
    f: spec_fn(int) -> bool,
    g: spec_fn(int) -> bool,
    k: int,
)
    requires
        0 <= k < n,
        forall|i: int| #![trigger f(i)] #![trigger g(i)] 0 <= i < n && i != k ==> f(i) == g(i),
    ensures
        count(n, g) + (if f(k) {
            1nat
        } else {
            0nat
        }) == count(n, f) + (if g(k) {
            1nat
        } else {
            0nat
        }),
    decreases n,
{
    if k == n - 1 {
        lemma_count_same((n - 1) as nat, f, g);
    } else {
        lemma_count_change((n - 1) as nat, f, g, k);
    }
}

/// Two predicates that exclude each other are counted together by their
/// disjunction.
pub proof fn lemma_count_disjoint(
    n: nat,
    f: spec_fn(int) -> bool,
    g: spec_fn(int) -> bool,
    either: spec_fn(int) -> bool,
)
    requires
        forall|i: int| #![trigger f(i)] #![trigger g(i)] 0 <= i < n ==> !(f(i) && g(i)),
        forall|i: int| 0 <= i < n ==> #[trigger] either(i) == (f(i) || g(i)),
    ensures
        count(n, either) == count(n, f) + count(n, g),
    decreases n,
{
    if n > 0 {
        lemma_count_disjoint((n - 1) as nat, f, g, either);
    }
}

/// A predicate counted `n` times below `n` holds everywhere below `n`,
/// and the other way round.
pub proof fn lemma_count_full(n: nat, f: spec_fn(int) -> bool)
    ensures
        count(n, f) == n <==> forall|i: int| 0 <= i < n ==> #[trigger] f(i),
    decreases n,
{
    if n > 0 {
        lemma_count_full((n - 1) as nat, f);
        lemma_count_bound((n - 1) as nat, f);
        if count(n, f) == n {
            assert forall|i: int| 0 <= i < n implies #[trigger] f(i) by {
                if i < n - 1 {
                }
            }
        }
    }
}

/// A predicate that implies another cannot be counted more often; if
/// both are counted equally often they hold of the same indices.
pub proof fn lemma_count_subset(n: nat, f: spec_fn(int) -> bool, g: spec_fn(int) -> bool)
    requires
        forall|i: int| #![trigger f(i)] #![trigger g(i)] 0 <= i < n && f(i) ==> g(i),
    ensures
        count(n, f) <= count(n, g),
        count(n, f) == count(n, g) ==> forall|i: int|
            #![trigger f(i)]
            #![trigger g(i)]
            0 <= i < n ==> f(i) == g(i),
    decreases n,
{
    if n > 0 {
        lemma_count_subset((n - 1) as nat, f, g);
        if count(n, f) == count(n, g) {
            assert forall|i: int|
                #![trigger f(i)]
                #![trigger g(i)]
                0 <= i < n implies f(i) == g(i) by {
                if i < n - 1 {
                }
            }
        }
    }
}

} // verus!
