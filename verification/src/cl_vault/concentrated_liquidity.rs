use vstd::prelude::*;
use crate::cl_vault::coinlist::{osmo_coin_of, to_osmo_coin, OsmoCoin};
use crate::cl_vault::state::PoolConfig;
use crate::coin::Coin;
use crate::math::decimal::{cw_decimal256_text, decimal_display, Decimal256};
use crate::text::{decimal_text, u128_text};

verus! {

/// A request to the pool to open a position between two ticks.
#[derive(Debug, Clone, PartialEq, Eq)]
pub struct MsgCreatePosition {
    pub pool_id: u64,
    pub sender: String,
    pub lower_tick: i64,
    pub upper_tick: i64,
    pub tokens_provided: Vec<OsmoCoin>,
    pub token_min_amount0: String,
    pub token_min_amount1: String,
}

/// A request to the pool to take liquidity out of a position.
#[derive(Debug, Clone, PartialEq, Eq)]
pub struct MsgWithdrawPosition {
    pub position_id: u64,
    pub sender: String,
    pub liquidity_amount: String,
}

/// A request to the pool to merge positions into one.
#[derive(Debug, Clone, PartialEq, Eq)]
pub struct MsgFungifyChargedPositions {
    pub position_ids: Vec<u64>,
    pub sender: String,
}

/// The request that opens a position of the vault's pool between two ticks
/// with the given tokens and minimum amounts.
pub fn create_position(
    pool: &PoolConfig,
    sender: &String,
    lower_tick: i64,
    upper_tick: i64,
    tokens_provided: &Vec<Coin>,
    token_min_amount0: u128,
    token_min_amount1: u128,
) -> (r: MsgCreatePosition)
    ensures
        r.pool_id == pool.pool_id,
        r.sender@ == sender@,
        r.lower_tick == lower_tick,
        r.upper_tick == upper_tick,
        r.tokens_provided@.len() == tokens_provided@.len(),
        forall|i: int| 0 <= i < tokens_provided@.len() ==>
            ((#[trigger] r.tokens_provided@[i]).denom@, r.tokens_provided@[i].amount@) == osmo_coin_of(tokens_provided@[i]),
        r.token_min_amount0@ == decimal_text(token_min_amount0 as nat),
        r.token_min_amount1@ == decimal_text(token_min_amount1 as nat),
{
    let mut tokens: Vec<OsmoCoin> = Vec::new();
    let mut i: usize = 0;
    while i < tokens_provided.len()
        invariant
            i <= tokens_provided@.len(),
            tokens@.len() == i,
            forall|j: int| 0 <= j < i ==>
                ((#[trigger] tokens@[j]).denom@, tokens@[j].amount@) == osmo_coin_of(tokens_provided@[j]),
        decreases tokens_provided@.len() - i,
    {
        tokens.push(to_osmo_coin(&tokens_provided[i]));
        i = i + 1;
    }
    MsgCreatePosition {
        pool_id: pool.pool_id,
        sender: sender.clone(),
        lower_tick,
        upper_tick,
        tokens_provided: tokens,
        token_min_amount0: u128_text(token_min_amount0),
        token_min_amount1: u128_text(token_min_amount1),
    }
}

/// The request that takes `liquidity_amount` out of the vault's position.
pub fn withdraw_from_position(sender: &String, position_id: u64, liquidity_amount: Decimal256) -> (r: MsgWithdrawPosition)
    ensures
        r.position_id == position_id,
        r.sender@ == sender@,
        r.liquidity_amount@ == decimal_display(liquidity_amount@),
{
    MsgWithdrawPosition { position_id, sender: sender.clone(), liquidity_amount: cw_decimal256_text(liquidity_amount) }
}

/// The request that merges newly created positions into the vault's main
/// position: the new ids, then the main one.
pub fn merge_positions(sender: &String, position_ids: Vec<u64>, main_position_id: u64) -> (r: MsgFungifyChargedPositions)
    ensures
        r.position_ids@ == position_ids@.push(main_position_id),
        r.sender@ == sender@,
{
    let mut ids = position_ids;
    ids.push(main_position_id);
    MsgFungifyChargedPositions { position_ids: ids, sender: sender.clone() }
}

} // verus!
