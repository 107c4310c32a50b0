//! The first place at which something holds.
use vstd::prelude::*;

verus! {

/// The least `i` below `n` for which `f` holds; `n` where there is none.
pub open spec fn first_index(n: nat, f: spec_fn(int) -> bool) -> int
    decreases n,
{
    if n == 0 {
        0
    } else {
        let k = first_index((n - 1) as nat, f);
        if k < n - 1 || f(n - 1) {
            k
        } else {
            n as int
        }
    }
}

/// What [`first_index`] means.
pub proof fn lemma_first_index(n: nat, f: spec_fn(int) -> bool)
    ensures
        0 <= first_index(n, f) <= n,
        first_index(n, f) < n ==> f(first_index(n, f)),
        forall|i: int| 0 <= i < first_index(n, f) ==> !#[trigger] f(i),
    decreases n,
{
    if n > 0 {
        lemma_first_index((n - 1) as nat, f);
    }
}

/// An `i` for which `f` holds, while it holds for none before, is the first.
pub proof fn lemma_first_index_is(n: nat, f: spec_fn(int) -> bool, i: int)
    requires
        0 <= i <= n,
        i < n ==> f(i),
        forall|j: int| 0 <= j < i ==> !#[trigger] f(j),
    ensures
        first_index(n, f) == i,
{
    lemma_first_index(n, f);
    let k = first_index(n, f);
    if k < i {
        assert(!f(k));
    }
}

} // verus!
