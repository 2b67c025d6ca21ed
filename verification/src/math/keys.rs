use vstd::prelude::*;

verus! {

/// `i64` keys are totally ordered the way ordered maps expect.
pub proof fn lemma_i64_key_order()
    ensures
        vstd::laws_cmp::obeys_cmp::<i64>(),
{
    broadcast use vstd::laws_cmp::group_laws_cmp;
}

} // verus!
