//! The royalties of a token series: shares of every sale, each for one
//! account, that together may not exceed a maximum.

use vstd::prelude::*;

verus! {

/// What the shares add up to.
pub open spec fn royalty_total(shares: Seq<u32>) -> nat
    decreases shares.len(),
{
    if shares.len() == 0 {
        0
    } else {
        royalty_total(shares.drop_last()) + shares.last() as nat
    }
}

/// The first shares never add up to more than all of them.
pub proof fn lemma_total_grows(shares: Seq<u32>, n: int)
    requires
        0 <= n <= shares.len(),
    ensures
        royalty_total(shares.take(n)) <= royalty_total(shares),
    decreases shares.len(),
{
    if n == shares.len() {
        assert(shares.take(n) =~= shares);
    } else {
        lemma_total_grows(shares.drop_last(), n);
        assert(shares.drop_last().take(n) =~= shares.take(n));
    }
}

/// Whether the shares add up to no more than `maximum_royalty`. However
/// many shares there are, the sum is never cut short: shares that add up to
/// more than a `u32` holds are over every maximum.
pub fn royalty_within(shares: &Vec<u32>, maximum_royalty: u32) -> (res: bool)
    ensures
        res == (royalty_total(shares@) <= maximum_royalty),
{
    let mut total: u64 = 0;
    let mut i: usize = 0;
    assert(shares@.take(0) =~= Seq::<u32>::empty());
    while i < shares.len()
        invariant
            i <= shares.len(),
            total == royalty_total(shares@.take(i as int)),
            total <= maximum_royalty,
        decreases shares.len() - i,
    {
        assert(shares@.take(i + 1).drop_last() =~= shares@.take(i as int));
        total = total + shares[i] as u64;
        if total > maximum_royalty as u64 {
            proof {
                lemma_total_grows(shares@, i + 1);
            }
            return false;
        }
        i += 1;
    }
    assert(shares@.take(i as int) =~= shares@);
    true
}

} // verus!
