//! Sums over finite sets.

use vstd::prelude::*;

verus! {

/// The sum of `f` over a finite set.
pub open spec fn sum_over<A>(keys: Set<A>, f: spec_fn(A) -> int) -> int {
    keys.fold(0int, |sum: int, k: A| sum + f(k))
}

/// The sum over no elements is zero.
pub proof fn lemma_sum_empty<A>(f: spec_fn(A) -> int)
    ensures
        sum_over(Set::<A>::empty(), f) == 0,
{
    vstd::set::fold::lemma_fold_empty::<A, int>(0int, |sum: int, k: A| sum + f(k));
}

/// An element adds its part to a sum.
pub proof fn lemma_sum_insert<A>(keys: Set<A>, f: spec_fn(A) -> int, k: A)
    requires
        keys.finite(),
        !keys.contains(k),
    ensures
        sum_over(keys.insert(k), f) == sum_over(keys, f) + f(k),
{
    let g = |sum: int, k: A| sum + f(k);
    vstd::set::fold::lemma_fold_insert::<A, int>(keys, 0int, g, k);
}

/// A sum of parts that are not negative is not below a sum over fewer elements.
pub proof fn lemma_sum_monotone<A>(part: Set<A>, whole: Set<A>, f: spec_fn(A) -> int)
    requires
        whole.finite(),
        part.subset_of(whole),
        forall|k: A| 0 <= #[trigger] f(k),
    ensures
        sum_over(part, f) <= sum_over(whole, f),
    decreases whole.len(),
{
    if part =~= whole {
    } else {
        let k = choose|k: A| whole.contains(k) && !part.contains(k);
        let rest = whole.remove(k);
        lemma_sum_monotone(part, rest, f);
        lemma_sum_insert(rest, f, k);
        assert(rest.insert(k) =~= whole);
        assert(0 <= f(k));
    }
}

/// A sum depends on nothing but the parts of its elements.
pub proof fn lemma_sum_congruent<A>(keys: Set<A>, f: spec_fn(A) -> int, g: spec_fn(A) -> int)
    requires
        keys.finite(),
        forall|k: A| #[trigger] keys.contains(k) ==> f(k) == g(k),
    ensures
        sum_over(keys, f) == sum_over(keys, g),
    decreases keys.len(),
{
    if keys.len() == 0 {
        assert(keys =~= Set::<A>::empty());
        lemma_sum_empty::<A>(f);
        lemma_sum_empty::<A>(g);
    } else {
        let k = keys.choose();
        let rest = keys.remove(k);
        lemma_sum_congruent(rest, f, g);
        lemma_sum_insert(rest, f, k);
        lemma_sum_insert(rest, g, k);
        assert(rest.insert(k) =~= keys);
    }
}

/// The sum over two sets without a common element is the sum of their sums.
pub proof fn lemma_sum_union<A>(x: Set<A>, y: Set<A>, f: spec_fn(A) -> int)
    requires
        x.finite(),
        y.finite(),
        x.disjoint(y),
    ensures
        sum_over(x.union(y), f) == sum_over(x, f) + sum_over(y, f),
    decreases y.len(),
{
    if y.len() == 0 {
        assert(y =~= Set::<A>::empty());
        lemma_sum_empty::<A>(f);
        assert(x.union(y) =~= x);
    } else {
        let k = y.choose();
        let rest = y.remove(k);
        lemma_sum_union(x, rest, f);
        lemma_sum_insert(rest, f, k);
        lemma_sum_insert(x.union(rest), f, k);
        assert(rest.insert(k) =~= y);
        assert(x.union(rest).insert(k) =~= x.union(y));
    }
}

} // verus!
