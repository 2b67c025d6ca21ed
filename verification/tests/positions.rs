use quasar_vaults::cl_vault::coinlist::OsmoCoin;
use quasar_vaults::cl_vault::concentrated_liquidity::{
    create_position, merge_positions, withdraw_from_position, MsgCreatePosition,
    MsgFungifyChargedPositions, MsgWithdrawPosition,
};
use quasar_vaults::cl_vault::error::{ContractError, StdError};
use quasar_vaults::cl_vault::instantiate::{check_performance_fee, plan_instantiate};
use quasar_vaults::cl_vault::state::PoolConfig;
use quasar_vaults::coin::coin;
use quasar_vaults::math::decimal::{Decimal, Decimal256};

const CONTRACT: &str = "cosmos2contract";

fn pool() -> PoolConfig {
    PoolConfig { pool_id: 1, token0: "token0".to_string(), token1: "token1".to_string() }
}

fn osmo(denom: &str, amount: &str) -> OsmoCoin {
    OsmoCoin { denom: denom.to_string(), amount: amount.to_string() }
}

#[test]
fn test_create_position() {
    let pool_id = 1;
    let lower_tick = 100;
    let upper_tick = 200;
    let tokens_provided = vec![coin(100, "token0"), coin(200, "token1")];
    let token_min_amount0 = 1000u128;
    let token_min_amount1 = 2000u128;
    let result = create_position(
        &pool(),
        &CONTRACT.to_string(),
        lower_tick,
        upper_tick,
        &tokens_provided,
        token_min_amount0,
        token_min_amount1,
    );
    assert_eq!(
        result,
        MsgCreatePosition {
            pool_id,
            sender: CONTRACT.to_string(),
            lower_tick,
            upper_tick,
            tokens_provided: vec![osmo("token0", "100"), osmo("token1", "200")],
            token_min_amount0: token_min_amount0.to_string(),
            token_min_amount1: token_min_amount1.to_string(),
        }
    );
}

#[test]
fn test_withdraw_from_position() {
    let liquidity_amount = Decimal256::raw(100_000_000_000_000_000_000);
    let position_id = 1;
    let result = withdraw_from_position(&CONTRACT.to_string(), position_id, liquidity_amount);
    assert_eq!(
        result,
        MsgWithdrawPosition {
            position_id,
            sender: CONTRACT.to_string(),
            liquidity_amount: "100".to_string(),
        }
    );
    let half = withdraw_from_position(&CONTRACT.to_string(), 1, Decimal256::raw(500_000_000_000_000_000));
    assert_eq!(half.liquidity_amount, "0.5");
}

#[test]
fn test_merge_positions() {
    let position_ids = vec![2, 3, 4];
    let position_id = 1;
    let mut expected_position_ids = position_ids.clone();
    expected_position_ids.push(position_id);
    let result = merge_positions(&CONTRACT.to_string(), position_ids, position_id);
    assert_eq!(
        result,
        MsgFungifyChargedPositions { position_ids: expected_position_ids, sender: CONTRACT.to_string() }
    );
}

#[test]
fn performance_fee_at_most_one() {
    assert_eq!(check_performance_fee(Decimal::one()), Ok(()));
    assert_eq!(check_performance_fee(Decimal::percent(20)), Ok(()));
    assert_eq!(
        check_performance_fee(Decimal::raw(1_000_000_000_000_000_001)),
        Err(ContractError::Std(StdError::GenericErr {
            msg: "performance fee cannot be more than 1.0".to_string()
        }))
    );
}

#[test]
fn instantiate_plan() {
    assert_eq!(
        plan_instantiate(7, None, &vec![coin(1, "token0")], &CONTRACT.to_string(), -10, 10),
        Err(ContractError::PoolNotFound { pool_id: 7 })
    );
    assert_eq!(
        plan_instantiate(1, Some(pool()), &vec![], &CONTRACT.to_string(), -10, 10),
        Err(ContractError::IncorrectAmountFunds)
    );
    let plan = plan_instantiate(1, Some(pool()), &vec![coin(5, "token1")], &CONTRACT.to_string(), -10, 10)
        .unwrap();
    assert_eq!(plan.pool_config, pool());
    assert_eq!(
        plan.create_position.tokens_provided,
        vec![osmo("token0", "0"), osmo("token1", "5")]
    );
    assert_eq!(plan.create_position.lower_tick, -10);
    assert_eq!(plan.create_position.upper_tick, 10);
    assert_eq!(plan.create_position.token_min_amount0, "0");
}

#[test]
fn withdraw_liquidity_text_trims_the_fraction() {
    let a = withdraw_from_position(&CONTRACT.to_string(), 1, Decimal256::raw(1_050_000_000_000_000_000));
    assert_eq!(a.liquidity_amount, "1.05");
    let b = withdraw_from_position(&CONTRACT.to_string(), 1, Decimal256::raw(1));
    assert_eq!(b.liquidity_amount, "0.000000000000000001");
    let c = withdraw_from_position(&CONTRACT.to_string(), 1, Decimal256::raw(0));
    assert_eq!(c.liquidity_amount, "0");
}
