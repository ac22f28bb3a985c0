//! What numbers in a row come to.

use vstd::prelude::*;

verus! {

/// What some numbers come to.
pub open spec fn total(s: Seq<int>) -> int
    decreases s.len(),
{
    if s.len() == 0 {
        0
    } else {
        total(s.drop_last()) + s.last()
    }
}

/// Two rows come to what each of them comes to.
pub proof fn lemma_total_joined(a: Seq<int>, b: Seq<int>)
    ensures
        total(a + b) == total(a) + total(b),
    decreases b.len(),
{
    if b.len() == 0 {
        assert(a + b =~= a);
    } else {
        assert((a + b).drop_last() =~= a + b.drop_last());
        lemma_total_joined(a, b.drop_last());
    }
}

} // verus!
