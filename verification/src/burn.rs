//! Logic of the burn contract: the coins sent to it are burnt, and it keeps
//! the total burnt per denomination.

use vstd::prelude::*;
use crate::cl_vault::coinlist::{amount_of, law_merge_adds_amounts, merge_all, total_of, CoinList};
use crate::coin::{copy_coins, distinct_denoms, Coin};

verus! {

/// The totals burnt so far, as the query answers them.
#[derive(Debug, Clone, PartialEq, Eq)]
pub struct TotalBurntResponse {
    pub amount: Vec<Coin>,
}

/// What a burn does: the coins handed to the bank to burn, and the new
/// totals to store.
#[derive(Debug, Clone, PartialEq, Eq)]
pub struct BurnOutcome {
    pub burn: Vec<Coin>,
    pub total_burnt: Vec<Coin>,
}

/// Burns the funds sent: all of them go to the bank's burn, and each is
/// added to the stored total of its denomination (the first entry of it),
/// or appended as a new entry.
pub fn execute_coins_burn(total_burnt: Vec<Coin>, funds: &Vec<Coin>) -> (r: BurnOutcome)
    requires
        merge_all(total_burnt@, funds@) is Some,
    ensures
        r.burn@ == funds@,
        Some(r.total_burnt@) == merge_all(total_burnt@, funds@),
{
    let burn = copy_coins(funds);
    let mut totals = CoinList(total_burnt);
    let _ = totals.merge(copy_coins(funds));
    BurnOutcome { burn, total_burnt: totals.0 }
}

/// The stored totals, as the query answers them.
pub fn query_total_burn(total_burnt: &Vec<Coin>) -> (r: TotalBurntResponse)
    ensures
        r.amount@ == total_burnt@,
{
    TotalBurntResponse { amount: copy_coins(total_burnt) }
}

/// Burning keeps one entry per denomination, and the total of each
/// denomination grows by exactly the amount of it that was burnt.
pub proof fn law_burn_accumulates(total_burnt: Seq<Coin>, funds: Seq<Coin>)
    requires
        distinct_denoms(total_burnt),
        merge_all(total_burnt, funds) is Some,
    ensures
        distinct_denoms(merge_all(total_burnt, funds)->Some_0),
        forall|d: Seq<char>| #[trigger] amount_of(merge_all(total_burnt, funds)->Some_0, d) as int
            == amount_of(total_burnt, d) + total_of(funds, d),
{
    law_merge_adds_amounts(total_burnt, funds);
}

} // verus!
