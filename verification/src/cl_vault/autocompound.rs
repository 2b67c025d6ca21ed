use vstd::prelude::*;
use crate::cl_vault::coinlist::{amount_of, law_merge_adds_amounts, merge_all, osmo_coin_of, total_of, CoinList, OsmoCoin};
use crate::cl_vault::error::ContractError;
use crate::cl_vault::state::{MigrationStatus, PoolConfig};
use crate::cl_vault::swap::SwapRoute;
use crate::coin::{distinct_denoms, positive_coins, sorted_by_denom};

verus! {

/// One side of a multi-send: an address and the coins it gives or gets.
#[derive(Debug, Clone, PartialEq, Eq)]
pub struct BankIo {
    pub address: String,
    pub coins: Vec<OsmoCoin>,
}

/// A bank transfer from some addresses to others.
#[derive(Debug, Clone, PartialEq, Eq)]
pub struct MsgMultiSend {
    pub inputs: Vec<BankIo>,
    pub outputs: Vec<BankIo>,
}

/// What one step of the migration does: the transfer that pays the users
/// of this page (none where nothing is paid), the users still to pay, the
/// users paid, whether none is left, and the status after the step.
pub struct MigrationStep {
    pub send: Option<MsgMultiSend>,
    pub remaining: Vec<(String, CoinList)>,
    pub paid: Vec<String>,
    pub is_last_execution: bool,
    pub status: MigrationStatus,
}

/// The coins of a reward list as they are paid: positive, sorted by denomination.
pub open spec fn paid_coins(rewards: CoinList) -> Seq<crate::coin::Coin> {
    positive_coins(sorted_by_denom(rewards@))
}

/// The sum of the rewards of the first `k` users, merged one after the
/// other; `None` where an amount leaves the 128-bit range.
pub open spec fn rewards_total(users: Seq<(String, CoinList)>, k: int) -> Option<Seq<crate::coin::Coin>>
    decreases k,
{
    if k <= 0 {
        Some(Seq::empty())
    } else {
        match rewards_total(users, k - 1) {
            Some(t) => merge_all(t, paid_coins(users[k - 1].1)),
            None => None,
        }
    }
}

/// How many of `n` users a page of `amount_of_users` takes: the amount as
/// a `usize` (truncated as `as` does), at most `n`.
pub open spec fn page_len(n: int, amount_of_users: u128) -> int {
    if ((amount_of_users as usize) as int) < n { (amount_of_users as usize) as int } else { n }
}

/// `bank` holds the coins `coins` as the pool module takes them.
pub open spec fn osmo_coins_of(bank: Seq<OsmoCoin>, coins: Seq<crate::coin::Coin>) -> bool {
    &&& bank.len() == coins.len()
    &&& forall|i: int| 0 <= i < bank.len() ==> ((#[trigger] bank[i]).denom@, bank[i].amount@) == osmo_coin_of(coins[i])
}

proof fn lemma_rewards_total_prefix(users: Seq<(String, CoinList)>, i: int, k: int)
    requires
        0 <= i <= k,
        rewards_total(users, k) is Some,
    ensures
        rewards_total(users, i) is Some,
    decreases k - i,
{
    if i < k {
        lemma_rewards_total_prefix(users, i, k - 1);
    }
}

/// One page of the migration of per-user rewards to auto-compounding: the
/// first `amount_of_users` users (in the order given, the stored order) are
/// paid their rewards in one transfer from the contract and leave the list;
/// when none is left the migration closes. A closed migration is refused.
/// CosmWasm panics where the total paid leaves the 128-bit range, which
/// `requires` excludes.
pub fn execute_migration_step(
    status: MigrationStatus,
    user_rewards: Vec<(String, CoinList)>,
    amount_of_users: u128,
    contract: &String,
) -> (r: Result<MigrationStep, ContractError>)
    requires
        status == MigrationStatus::Open ==> rewards_total(user_rewards@, page_len(user_rewards@.len() as int, amount_of_users)) is Some,
    ensures
        ({
            let users = user_rewards@;
            let k = page_len(users.len() as int, amount_of_users);
            let total = rewards_total(users, k)->Some_0;
            if status == MigrationStatus::Closed {
                r == Err::<MigrationStep, ContractError>(ContractError::MigrationStatusClosed)
            } else {
                r matches Ok(step) && {
                    &&& step.remaining@ == users.skip(k)
                    &&& step.paid@.len() == k
                    &&& forall|i: int| 0 <= i < k ==> (#[trigger] step.paid@[i])@ == users[i].0@
                    &&& step.is_last_execution == (k == users.len())
                    &&& step.status == (if k == users.len() { MigrationStatus::Closed } else { MigrationStatus::Open })
                    &&& (total.len() == 0 ==> step.send is None)
                    &&& (total.len() > 0 ==> (step.send matches Some(m) && {
                        &&& m.inputs@.len() == 1
                        &&& m.inputs@[0].address@ == contract@
                        &&& osmo_coins_of(m.inputs@[0].coins@, positive_coins(sorted_by_denom(total)))
                        &&& m.outputs@.len() == k
                        &&& forall|i: int| 0 <= i < k ==> (#[trigger] m.outputs@[i]).address@ == users[i].0@
                            && osmo_coins_of(m.outputs@[i].coins@, paid_coins(users[i].1))
                    }))
                }
            }
        }),
{
    if status == MigrationStatus::Closed {
        return Err(ContractError::MigrationStatusClosed);
    }
    let ghost users = user_rewards@;
    #[verifier::truncate]
    let wanted: usize = amount_of_users as usize;
    let k: usize = if wanted < user_rewards.len() { wanted } else { user_rewards.len() };
    let mut remaining = user_rewards;
    let mut outputs: Vec<BankIo> = Vec::new();
    let mut paid: Vec<String> = Vec::new();
    let mut total = CoinList::new();
    let mut i: usize = 0;
    while i < k
        invariant
            k <= users.len(),
            i <= k,
            rewards_total(users, k as int) is Some,
            remaining@ == users.skip(i as int),
            Some(total@) == rewards_total(users, i as int),
            outputs@.len() == i,
            paid@.len() == i,
            forall|j: int| 0 <= j < i ==> (#[trigger] outputs@[j]).address@ == users[j].0@
                && osmo_coins_of(outputs@[j].coins@, paid_coins(users[j].1)),
            forall|j: int| 0 <= j < i ==> (#[trigger] paid@[j])@ == users[j].0@,
        decreases k - i,
    {
        proof {
            lemma_rewards_total_prefix(users, i + 1, k as int);
            assert(users.skip(i as int).drop_first() =~= users.skip(i + 1));
        }
        let (address, rewards) = remaining.remove(0);
        let coins = rewards.osmo_coin_from_coin_list();
        outputs.push(BankIo { address: address.clone(), coins });
        let _ = total.add(rewards);
        paid.push(address);
        i = i + 1;
    }
    let is_last_execution = remaining.len() == 0;
    let status = if is_last_execution { MigrationStatus::Closed } else { MigrationStatus::Open };
    let send = if total.is_empty() {
        None
    } else {
        let mut inputs: Vec<BankIo> = Vec::new();
        inputs.push(BankIo { address: contract.clone(), coins: total.osmo_coin_from_coin_list() });
        Some(MsgMultiSend { inputs, outputs })
    };
    Ok(MigrationStep { send, remaining, paid, is_last_execution, status })
}

/// Whether the rewards of a page of users add up within 128 bits, as
/// `execute_migration_step` requires of an open migration.
pub fn rewards_total_fits(users: &Vec<(String, CoinList)>, amount_of_users: u128) -> (r: bool)
    ensures
        r == (rewards_total(users@, page_len(users@.len() as int, amount_of_users)) is Some),
{
    #[verifier::truncate]
    let wanted: usize = amount_of_users as usize;
    let k: usize = if wanted < users.len() { wanted } else { users.len() };
    let mut total = CoinList::new();
    let mut i: usize = 0;
    while i < k
        invariant
            k <= users@.len(),
            k == page_len(users@.len() as int, amount_of_users),
            i <= k,
            Some(total@) == rewards_total(users@, i as int),
        decreases k - i,
    {
        let paid = users[i].1.coins();
        match total.checked_merge(&paid) {
            Some(t) => { total = t; },
            None => {
                proof { lemma_rewards_total_none_extends(users@, i + 1, k as int); }
                return false;
            },
        }
        i = i + 1;
    }
    true
}

proof fn lemma_rewards_total_none_extends(users: Seq<(String, CoinList)>, i: int, k: int)
    requires
        0 <= i <= k,
        rewards_total(users, i) is None,
    ensures
        rewards_total(users, k) is None,
    decreases k - i,
{
    if i < k {
        lemma_rewards_total_none_extends(users, i, k - 1);
    }
}

/// The sum, over the first `k` users, of what each is paid in denomination `d`.
pub open spec fn users_paid(users: Seq<(String, CoinList)>, k: int, d: Seq<char>) -> int
    decreases k,
{
    if k <= 0 { 0 } else { users_paid(users, k - 1, d) + total_of(paid_coins(users[k - 1].1), d) }
}

/// The total that a migration step sends out holds each denomination once,
/// with exactly the sum of what the users of the page are paid in it.
pub proof fn law_migration_total_is_sum_paid(users: Seq<(String, CoinList)>, k: int)
    requires
        0 <= k,
        rewards_total(users, k) is Some,
    ensures
        distinct_denoms(rewards_total(users, k)->Some_0),
        forall|d: Seq<char>| #[trigger] amount_of(rewards_total(users, k)->Some_0, d) as int == users_paid(users, k, d),
    decreases k,
{
    if k > 0 {
        lemma_rewards_total_prefix(users, k - 1, k);
        law_migration_total_is_sum_paid(users, k - 1);
        let t = rewards_total(users, k - 1)->Some_0;
        law_merge_adds_amounts(t, paid_coins(users[k - 1].1));
        assert forall|d: Seq<char>| #[trigger] amount_of(rewards_total(users, k)->Some_0, d) as int == users_paid(users, k, d) by {
            assert(amount_of(t, d) as int == users_paid(users, k - 1, d));
        }
    } else {
        assert forall|d: Seq<char>| #[trigger] amount_of(rewards_total(users, k)->Some_0, d) as int == users_paid(users, k, d) by {
            let e = Seq::<crate::coin::Coin>::empty();
            assert(crate::coin::first_with(e, d) is None);
        }
    }
}

/// The two halves of what a token's balance holds beyond the strategist's
/// rewards, the second taking the odd unit; nothing beyond them is refused.
/// CosmWasm panics where the rewards exceed the balance or the amount is
/// the largest one, which `requires` excludes.
pub fn compound_split(balance: u128, strategist_amount: u128) -> (r: Result<(u128, u128), ContractError>)
    requires
        strategist_amount <= balance,
        balance - strategist_amount < u128::MAX,
    ensures
        balance == strategist_amount ==> r == Err::<(u128, u128), ContractError>(
            ContractError::InsufficientFundsForSwap { balance, needed: strategist_amount }),
        balance > strategist_amount ==> r == Ok::<(u128, u128), ContractError>((
            ((balance - strategist_amount) / 2) as u128,
            ((balance - strategist_amount + 1) / 2) as u128,
        )),
{
    let remaining = balance - strategist_amount;
    if remaining == 0 {
        return Err(ContractError::InsufficientFundsForSwap { balance, needed: strategist_amount });
    }
    Ok((remaining / 2, (remaining + 1) / 2))
}

/// The two halves of a non-vault token's balance that are swapped into the
/// pool's two tokens, the second taking the odd unit. One of the pool's own
/// tokens is refused, then an empty balance. CosmWasm panics on the largest
/// balance, which `requires` excludes.
pub fn non_vault_swap_split(pool: &PoolConfig, token_in_denom: &String, balance: u128) -> (r: Result<(u128, u128), ContractError>)
    requires
        balance < u128::MAX,
    ensures
        r == if token_in_denom@ == pool.token0@ || token_in_denom@ == pool.token1@ {
            Err::<(u128, u128), ContractError>(ContractError::InvalidSwapAssets)
        } else if balance == 0 {
            Err(ContractError::InsufficientFunds)
        } else {
            Ok(((balance / 2) as u128, ((balance + 1) / 2) as u128))
        },
{
    if *token_in_denom == pool.token0 || *token_in_denom == pool.token1 {
        return Err(ContractError::InvalidSwapAssets);
    }
    if balance == 0 {
        return Err(ContractError::InsufficientFunds);
    }
    Ok((balance / 2, (balance + 1) / 2))
}

/// Chooses the path of an auto-compounding swap through the dex router. A
/// forced swap takes the recommended path, which it must have; otherwise the
/// best path wins when its simulated output is at least the recommended one
/// (a missing recommended path yields nothing), else the recommended path.
/// CosmWasm panics where the best path wins but the router knows none,
/// which `requires` excludes.
pub fn select_compound_route(
    force_swap_route: bool,
    has_recommended: bool,
    recommended_out: u128,
    has_best: bool,
    best_out: u128,
) -> (r: Result<SwapRoute, ContractError>)
    requires
        !force_swap_route && best_out >= (if has_recommended { recommended_out } else { 0 }) ==> has_best,
    ensures
        r == if force_swap_route {
            if has_recommended {
                Ok::<SwapRoute, ContractError>(SwapRoute::RecommendedPath)
            } else {
                Err(ContractError::TryForceRouteWithoutRecommendedSwapRoute)
            }
        } else if best_out >= (if has_recommended { recommended_out } else { 0 }) {
            Ok(SwapRoute::BestPath)
        } else {
            Ok(SwapRoute::RecommendedPath)
        },
{
    let rec = if has_recommended { recommended_out } else { 0 };
    if force_swap_route {
        if has_recommended {
            Ok(SwapRoute::RecommendedPath)
        } else {
            Err(ContractError::TryForceRouteWithoutRecommendedSwapRoute)
        }
    } else if best_out >= rec {
        Ok(SwapRoute::BestPath)
    } else {
        Ok(SwapRoute::RecommendedPath)
    }
}

} // verus!
