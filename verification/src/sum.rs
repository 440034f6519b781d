//! Summing a function over a finite set of guild ids, and the facts the
//! ledger's total-balance query needs about it.

use vstd::prelude::*;

verus! {

/// The sum of `f` over a finite set, taken one chosen element at a time; an
/// infinite set sums to zero, but every use here is finite.
pub open spec fn sum_over_set(s: Set<u64>, f: spec_fn(u64) -> nat) -> nat
    decreases s.len(),
    when s.finite()
{
    if s.finite() && !(s =~= Set::<u64>::empty()) {
        let x = s.choose();
        f(x) + sum_over_set(s.remove(x), f)
    } else {
        0
    }
}

/// Taking one member out takes exactly its summand out: the sum does not
/// depend on the order the definition picks elements in.
pub proof fn lemma_sum_remove(s: Set<u64>, f: spec_fn(u64) -> nat, x: u64)
    requires
        s.finite(),
        s.contains(x),
    ensures
        sum_over_set(s, f) == f(x) + sum_over_set(s.remove(x), f),
    decreases s.len(),
{
    let c = s.choose();
    assert(!(s =~= Set::<u64>::empty()));
    assert(s.contains(c));
    if c == x {
    } else {
        lemma_sum_remove(s.remove(c), f, x);
        lemma_sum_remove(s.remove(x), f, c);
        assert(s.remove(c).remove(x) =~= s.remove(x).remove(c));
    }
}

/// Adding a fresh member adds exactly its summand.
pub proof fn lemma_sum_insert(s: Set<u64>, f: spec_fn(u64) -> nat, x: u64)
    requires
        s.finite(),
        !s.contains(x),
    ensures
        sum_over_set(s.insert(x), f) == sum_over_set(s, f) + f(x),
{
    lemma_sum_remove(s.insert(x), f, x);
    assert(s.insert(x).remove(x) =~= s);
}

} // verus!
