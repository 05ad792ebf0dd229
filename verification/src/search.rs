//! The first position of a sequence of flags at which the flag is set.

use vstd::prelude::*;

verus! {

/// Flag `k` is set and none before it is.
pub open spec fn is_first_true(flags: Seq<bool>, k: int) -> bool {
    &&& 0 <= k < flags.len()
    &&& flags[k]
    &&& forall|i: int| 0 <= i < k ==> !flags[i]
}

/// The index of the first flag that is set, if there is one.
pub open spec fn first_true(flags: Seq<bool>) -> Option<int> {
    if exists|k: int| is_first_true(flags, k) {
        Some(choose|k: int| is_first_true(flags, k))
    } else {
        None
    }
}

/// The first set flag is the one index that is set while none before it is;
/// there is none exactly when no flag is set.
pub proof fn lemma_first_true(flags: Seq<bool>)
    ensures
        forall|k: int| first_true(flags) == Some(k) <==> is_first_true(flags, k),
        first_true(flags).is_none() <==> forall|k: int| 0 <= k < flags.len() ==> !flags[k],
{
    assert forall|k: int| is_first_true(flags, k) implies first_true(flags) == Some(k) by {
        let c = choose|c: int| is_first_true(flags, c);
        assert(is_first_true(flags, c));
        if c < k {
            assert(!flags[c]);
        } else if k < c {
            assert(!flags[k]);
        }
    }
    if exists|k: int| 0 <= k < flags.len() && flags[k] {
        let k = choose|k: int| 0 <= k < flags.len() && flags[k];
        lemma_least_true(flags, k);
    }
}

/// Where a flag is set, one of the set flags is the first.
proof fn lemma_least_true(flags: Seq<bool>, k: int)
    requires
        0 <= k < flags.len(),
        flags[k],
    ensures
        exists|j: int| is_first_true(flags, j),
    decreases k,
{
    if exists|i: int| 0 <= i < k && flags[i] {
        let i = choose|i: int| 0 <= i < k && flags[i];
        lemma_least_true(flags, i);
    } else {
        assert(is_first_true(flags, k));
    }
}

} // verus!
