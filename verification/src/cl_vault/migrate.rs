use vstd::prelude::*;
use crate::cl_vault::coinlist::{BankSend, CoinList};
use crate::cl_vault::state::{OldPosition, Position};
use crate::coin::{positive_coins, sort_tokens, sorted_by_denom};

verus! {

/// What migrating to auto-compounding does once the old state is read: the
/// payment of the strategist's rewards to the treasury (none when no reward
/// is recorded), and the position with its join time.
#[derive(Debug, Clone, PartialEq, Eq)]
pub struct MigratePlan {
    pub send: Option<BankSend>,
    pub position: Position,
}

/// Plans the migration: the recorded strategist rewards, if any, go to the
/// treasury (their positive coins, sorted by denomination); the position
/// keeps its id, takes the join time the pool reports (in seconds, without
/// its sign) and has no claim time yet.
pub fn plan_migrate(strategist_rewards: &CoinList, treasury: String, old_position: OldPosition, join_time_seconds: i64)
    -> (r: MigratePlan)
    ensures
        strategist_rewards@.len() == 0 ==> r.send is None,
        strategist_rewards@.len() > 0 ==> (r.send matches Some(m) && m.to_address@ == treasury@
            && m.amount@ == sorted_by_denom(positive_coins(sorted_by_denom(strategist_rewards@)))),
        r.position.position_id == old_position.position_id,
        r.position.join_time == (if join_time_seconds < 0 { -join_time_seconds } else { join_time_seconds as int }),
        r.position.claim_after is None,
{
    let send = if strategist_rewards.is_empty() {
        None
    } else {
        Some(BankSend { to_address: treasury, amount: sort_tokens(strategist_rewards.coins()) })
    };
    let join_time: u64 = if join_time_seconds < 0 {
        if join_time_seconds == i64::MIN { 0x8000_0000_0000_0000u64 } else { (0 - join_time_seconds) as u64 }
    } else {
        join_time_seconds as u64
    };
    MigratePlan { send, position: Position { position_id: old_position.position_id, join_time, claim_after: None } }
}

} // verus!
