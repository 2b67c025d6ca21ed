use std::collections::BTreeMap;
use std::str::FromStr;

use quasar_vaults::cl_vault::error::ContractError;
use quasar_vaults::cl_vault::helpers::{
    get_asset0_value, get_final_ratio, get_max_utilization_for_ratio, get_one_or_two_coins,
    get_single_sided_deposit_0_to_1_swap_amount, get_single_sided_deposit_1_to_0_swap_amount,
    must_pay_one_or_two, with_slippage, PositionRatio, WeightedPosition,
};
use quasar_vaults::cl_vault::liquidity::{
    _liquidity0, _liquidity1, abs_diff, asset0, asset1, calc_amount0_delta, calc_amount1_delta,
    get_position_ratio, liquidity0, liquidity1,
};
use quasar_vaults::cl_vault::tick::{build_tick_exp_cache, price_to_tick};
use quasar_vaults::coin::coin;
use quasar_vaults::math::decimal::{Decimal, Decimal256};
use quasar_vaults::math::uint::Uint256;

fn u256(x: cosmwasm_std::Uint256) -> Uint256 {
    let a = x.to_be_bytes();
    Uint256 {
        hi: u128::from_be_bytes(a[..16].try_into().unwrap()),
        lo: u128::from_be_bytes(a[16..].try_into().unwrap()),
    }
}

fn d256(d: cosmwasm_std::Decimal256) -> Decimal256 {
    Decimal256::new(u256(d.atomics()))
}

fn d256_str(s: &str) -> Decimal256 {
    d256(cosmwasm_std::Decimal256::from_str(s).unwrap())
}

fn d256_atomics(atomics: u128, places: u32) -> Decimal256 {
    d256(cosmwasm_std::Decimal256::from_atomics(atomics, places).unwrap())
}

fn dec_str(s: &str) -> Decimal {
    Decimal::raw(cosmwasm_std::Decimal::from_str(s).unwrap().atomics().u128())
}

fn dec_atomics(atomics: u128, places: u32) -> Decimal {
    Decimal::raw(cosmwasm_std::Decimal::from_atomics(atomics, places).unwrap().atomics().u128())
}

#[test]
fn must_pay_one_or_two_works_ordered() {
    let expected0 = coin(100, "uatom");
    let expected1 = coin(200, "uosmo");
    let funds = vec![expected0.clone(), expected1.clone()];
    let (token0, token1) = must_pay_one_or_two(&funds, ("uatom".to_string(), "uosmo".to_string())).unwrap();
    assert_eq!(expected0, token0);
    assert_eq!(expected1, token1);
}

#[test]
fn must_pay_one_or_two_works_unordered() {
    let expected0 = coin(100, "uatom");
    let expected1 = coin(200, "uosmo");
    let funds = vec![expected1.clone(), expected0.clone()];
    let (token0, token1) = must_pay_one_or_two(&funds, ("uatom".to_string(), "uosmo".to_string())).unwrap();
    assert_eq!(expected0, token0);
    assert_eq!(expected1, token1);
}

#[test]
fn must_pay_one_or_two_rejects_three() {
    let funds = vec![coin(200, "uosmo"), coin(100, "uatom"), coin(200, "uqsr")];
    let err = must_pay_one_or_two(&funds, ("uatom".to_string(), "uosmo".to_string())).unwrap_err();
    assert_eq!(err, ContractError::IncorrectAmountFunds);
}

#[test]
fn must_pay_one_or_two_accepts_second_token() {
    let funds = vec![coin(200, "uosmo")];
    let res = must_pay_one_or_two(&funds, ("uatom".to_string(), "uosmo".to_string())).unwrap();
    assert_eq!((coin(0, "uatom"), coin(200, "uosmo")), res)
}

#[test]
fn must_pay_one_or_two_accepts_first_token() {
    let funds = vec![coin(200, "uatom")];
    let res = must_pay_one_or_two(&funds, ("uatom".to_string(), "uosmo".to_string())).unwrap();
    assert_eq!((coin(200, "uatom"), coin(0, "uosmo")), res)
}

#[test]
fn get_one_or_two_coins_drops_zero_and_refuses_none() {
    let denoms = ("uatom".to_string(), "uosmo".to_string());
    assert_eq!(get_one_or_two_coins(&vec![coin(5, "uosmo")], denoms.clone()).unwrap(), vec![coin(5, "uosmo")]);
    assert_eq!(
        get_one_or_two_coins(&vec![coin(0, "uosmo")], denoms).unwrap_err(),
        ContractError::IncorrectAmountFunds
    );
}

fn tick(cache: &BTreeMap<i64, quasar_vaults::cl_vault::state::TickExpIndexData>, price: &str) -> i64 {
    price_to_tick(cache, d256_str(price)).unwrap().try_into().unwrap()
}

fn check_0_to_1_swap() {
    let mut cache = BTreeMap::new();
    build_tick_exp_cache(&mut cache).unwrap();
    let lower_tick = tick(&cache, "4500");
    let upper_tick = tick(&cache, "5500");
    let token0amt = 200000u128;
    let prices = [
        ("4501", 232u128),
        ("4600", 22674),
        ("4700", 44304),
        ("4800", 65099),
        ("4900", 85241),
        ("5000", 104884),
        ("5100", 124166),
        ("5200", 143210),
        ("5300", 162128),
        ("5400", 181025),
        ("5499", 199809),
    ];
    for (price, result) in prices {
        let curr_tick = tick(&cache, price);
        let swap_amount = get_single_sided_deposit_0_to_1_swap_amount(token0amt, lower_tick, curr_tick, upper_tick).unwrap();
        assert_eq!(swap_amount, result);
    }
}

fn check_1_to_0_swap() {
    let mut cache = BTreeMap::new();
    build_tick_exp_cache(&mut cache).unwrap();
    let lower_tick = tick(&cache, "4500");
    let upper_tick = tick(&cache, "5500");
    let token1amt = 200000u128;
    let prices = [
        ("4501", 199767u128),
        ("4600", 177325),
        ("4700", 155695),
        ("4800", 134900),
        ("4900", 114758),
        ("5000", 95115),
        ("5100", 75833),
        ("5200", 56789),
        ("5300", 37871),
        ("5400", 18974),
        ("5499", 190),
    ];
    for (price, result) in prices {
        let curr_tick = tick(&cache, price);
        let swap_amount = get_single_sided_deposit_1_to_0_swap_amount(token1amt, lower_tick, curr_tick, upper_tick).unwrap();
        assert_eq!(swap_amount, result);
    }
}

#[test]
fn helpers_test_0_to_1_swap() {
    check_0_to_1_swap();
}

#[test]
fn helpers_test_1_to_0_swap() {
    check_1_to_0_swap();
}

#[test]
fn getters_test_0_to_1_swap() {
    check_0_to_1_swap();
}

#[test]
fn getters_test_1_to_0_swap() {
    check_1_to_0_swap();
}

#[test]
fn single_sided_swap_reports_tick_errors() {
    assert_eq!(
        get_single_sided_deposit_0_to_1_swap_amount(100, i64::MIN, 0, 10).unwrap_err(),
        ContractError::TickIndexMinError
    );
    assert_eq!(
        get_single_sided_deposit_1_to_0_swap_amount(100, 0, 0, i64::MAX).unwrap_err(),
        ContractError::TickIndexMaxError
    );
}

fn create_position(id: u64, ratio: u128) -> WeightedPosition {
    WeightedPosition { position_id: id, ratio }
}

fn create_ratio(asset0: u128, asset1: u128) -> PositionRatio {
    PositionRatio::new(asset0, asset1)
}

fn assert_approx(actual: u128, expected: u128) {
    // within a relative 0.00002
    let diff = if actual > expected { actual - expected } else { expected - actual };
    assert!(diff * 100_000 <= expected * 2, "{actual} vs {expected}");
}

#[test]
fn test_get_final_ratio_two_positions() {
    let token0 = 150_000;
    let token1 = 300_000;
    let positions = vec![
        (create_position(0, 100), create_ratio(token0, token1)),
        (create_position(1, 200), create_ratio(token0, token1)),
    ];
    let result = get_final_ratio(positions).expect("Should not fail");
    assert_eq!(result.len(), 2);
    let position_0 = result.get(0).unwrap();
    let position_1 = result.get(1).unwrap();
    assert_approx(position_0.1.asset0, token0 / 3);
    assert_approx(position_0.1.asset1, token1 / 3);
    assert_approx(position_1.1.asset1, token1 * 2 / 3);
    assert_approx(position_1.1.asset1, token1 * 2 / 3);
}

#[test]
fn test_get_final_ratio_three_positions() {
    let token0 = 150_000;
    let token1 = 300_000;
    let positions = vec![
        (create_position(0, 100), create_ratio(token0, token1)),
        (create_position(1, 200), create_ratio(token0, token1)),
        (create_position(1, 200), create_ratio(token0, token1)),
    ];
    let result = get_final_ratio(positions).expect("Should not fail");
    assert_eq!(result.len(), 3);
    let position_0 = result.get(0).unwrap();
    let position_1 = result.get(1).unwrap();
    assert_approx(position_0.1.asset0, token0 / 5);
    assert_approx(position_0.1.asset1, token1 / 5);
    assert_approx(position_1.1.asset1, token1 * 2 / 5);
    assert_approx(position_1.1.asset1, token1 * 2 / 5);
}

#[test]
fn position_ratio_arithmetic() {
    let a = PositionRatio::new(3, 4);
    assert_eq!(a.checked_add(&PositionRatio::new(1, 1)).unwrap(), PositionRatio::new(4, 5));
    assert_eq!(a.checked_mul(PositionRatio::new(2, 3)).unwrap(), PositionRatio::new(6, 12));
    assert!(PositionRatio::new(u128::MAX, 1).checked_mul(PositionRatio::new(2, 1)).is_err());
    assert_eq!(PositionRatio::new(10, 20).checked_mul_ratio(Decimal::percent(50)).unwrap(), PositionRatio::new(5, 10));
    let mut s = PositionRatio::new(7, 0);
    s.simplify();
    assert_eq!(s, PositionRatio::new(1, 0));
    let mut s = PositionRatio::new(0, 9);
    s.simplify();
    assert_eq!(s, PositionRatio::new(0, 1));
    let mut s = PositionRatio::new(6, 4);
    s.simplify();
    assert_eq!(s, PositionRatio::new(1_500_000_000_000_000_000, 1_000_000_000_000_000_000));
    assert_eq!(PositionRatio::zero(), PositionRatio::new(0, 0));
}

#[test]
fn slippage_and_asset0_value() {
    assert_eq!(with_slippage(1000, Decimal::percent(5)).unwrap(), 950);
    assert!(matches!(with_slippage(1000, Decimal::percent(101)).unwrap_err(), ContractError::OverflowError(_)));
    // 100 of token1 at a price of 2 is worth 50 of token0
    assert_eq!(get_asset0_value(10, 100, Decimal::percent(200)).unwrap(), 60);
    assert!(get_asset0_value(u128::MAX, 100, Decimal::percent(200)).is_err());
}

#[test]
fn max_utilization_for_ratio() {
    let r = d256_str("2");
    // 100 token0 and 100 token1 at 2 token0 per token1: token0 limits, 50 token1 used
    let (a, b) = get_max_utilization_for_ratio(Uint256::from_u128(100), Uint256::from_u128(100), r).unwrap();
    assert_eq!((a, b), (Uint256::from_u128(100), Uint256::from_u128(50)));
    let (a, b) = get_max_utilization_for_ratio(Uint256::from_u128(100), Uint256::from_u128(20), r).unwrap();
    assert_eq!((a, b), (Uint256::from_u128(40), Uint256::from_u128(20)));
    assert!(get_max_utilization_for_ratio(Uint256::from_u128(1), Uint256::from_u128(1), Decimal256::zero()).is_err());
}

#[test]
fn liquidity_test_liquidity0() {
    let amount0_desired = d256_str("1000000");
    let current_sqrt_p = d256_atomics(70710678118654752440_u128, 18);
    let sqrt_p_high = d256_atomics(74161984870956629487_u128, 18);
    let result = _liquidity0(amount0_desired, current_sqrt_p, sqrt_p_high).unwrap();
    assert_eq!(result, d256_str("1519437308.014768571720923239"))
}

#[test]
fn liquidity_test_liquidity1() {
    let amount1_desired = d256_atomics(5000000000_u128, 0);
    let current_sqrt_p = d256_atomics(70710678118654752440_u128, 18);
    let sqrt_p_low = d256_atomics(67416615162732695594_u128, 18);
    let result = _liquidity1(amount1_desired, current_sqrt_p, sqrt_p_low).unwrap();
    assert_eq!(result, d256_str("1517882343.751510418088349649"));
}

#[test]
fn liquidity_test_max_liquidity0() {
    let max_sqrt_price = Decimal256::raw(10000000000000000000000000000000000000_u128);
    let max_sqrt_price_low = Decimal256::raw(300000000000000000000000000000000_u128);
    let amount0_desired = d256_str("1000000");
    let _ = _liquidity0(amount0_desired, max_sqrt_price, max_sqrt_price_low).unwrap();
}

#[test]
fn liquidity_test_max_liquidity1() {
    let max_sqrt_price = Decimal256::raw(10000000000000000000000000000000000000_u128);
    let max_sqrt_price_low = Decimal256::raw(1000000000000000000000000000000000000_u128);
    let amount0_desired = d256_str("1000000");
    let _ = _liquidity1(amount0_desired, max_sqrt_price, max_sqrt_price_low).unwrap();
}

#[test]
fn math_test_liquidity0() {
    let amount0_desired = dec_str("1000000");
    let current_sqrt_p = dec_atomics(70710678118654752440_u128, 18);
    let sqrt_p_high = dec_atomics(74161984870956629487_u128, 18);
    let result = liquidity0(amount0_desired, current_sqrt_p, sqrt_p_high).unwrap();
    assert_eq!(result, dec_str("1519437308.014768571720923239"))
}

#[test]
fn math_test_liquidity1() {
    let amount1_desired = dec_atomics(5000000000_u128, 0);
    let current_sqrt_p = dec_atomics(70710678118654752440_u128, 18);
    let sqrt_p_low = dec_atomics(67416615162732695594_u128, 18);
    let result = liquidity1(amount1_desired, current_sqrt_p, sqrt_p_low).unwrap();
    assert_eq!(result, dec_str("1517882343.751510418088349649"));
}

#[test]
fn math_test_max_liquidity0() {
    let max_sqrt_price = Decimal::raw(10000000000000000000000000000000000000_u128);
    let max_sqrt_price_low = Decimal::raw(300000000000000000000000000000000_u128);
    let amount0_desired = dec_str("1000000");
    let _ = liquidity0(amount0_desired, max_sqrt_price, max_sqrt_price_low).unwrap();
}

#[test]
fn math_test_max_liquidity1() {
    let max_sqrt_price = Decimal::raw(10000000000000000000000000000000000000_u128);
    let max_sqrt_price_low = Decimal::raw(1000000000000000000000000000000000000_u128);
    let amount0_desired = dec_str("1000000");
    let _ = liquidity1(amount0_desired, max_sqrt_price, max_sqrt_price_low).unwrap();
}

#[test]
fn liquidity_equal_prices_refused() {
    let p = d256_str("2");
    assert!(matches!(_liquidity0(d256_str("1"), p, p).unwrap_err(), ContractError::Std(_)));
    assert!(matches!(_liquidity1(d256_str("1"), p, p).unwrap_err(), ContractError::Std(_)));
}

#[test]
fn test_calc_amount0_delta_happy_path_round_down() {
    let liquidity = d256_str("1517882343.751510418088349649");
    let sqrt_pa = d256_atomics(70710678118654752440_u128, 18);
    let sqrt_pb = d256_atomics(74161984870956629487_u128, 18);
    let amount0_expected = d256_str("998976.61834742638835681");
    let result = calc_amount0_delta(liquidity, sqrt_pa, sqrt_pb).unwrap();
    assert_eq!(result, amount0_expected);
}

#[test]
fn calc_amount1_delta_rounds_up_on_request() {
    let liq = dec_str("2.5");
    let a = dec_str("1");
    let b = dec_str("2");
    assert_eq!(calc_amount1_delta(liq, b, a, false).unwrap(), dec_str("2.5"));
    assert_eq!(calc_amount1_delta(liq, a, b, true).unwrap(), dec_str("3"));
}

#[test]
fn assets_of_liquidity() {
    // on atomic units: liquidity 4e36 between square-root prices 1e18 and 2e18
    // holds 4e36 * 1e18 / 2e36 of token0 and 4e36 / 1e18 of token1
    let one = d256_str("1");
    let two = d256_str("2");
    let l = Decimal256::raw(1_000_000_000_000_000_000);
    assert_eq!(asset0(l, one, two).unwrap(), 0);
    let big = Decimal256::raw(4_000_000_000_000_000_000_000_000_000_000_000_000);
    assert_eq!(asset0(big, two, one).unwrap(), 2_000_000_000_000_000_000);
    assert_eq!(asset1(big, one, two).unwrap(), 4_000_000_000_000_000_000);
    assert!(asset0(l, one, one).is_err());
    assert_eq!(abs_diff(Uint256::from_u128(3), Uint256::from_u128(10)), Uint256::from_u128(7));
    assert_eq!(abs_diff(Uint256::from_u128(10), Uint256::from_u128(3)), Uint256::from_u128(7));
}

#[test]
fn position_ratio_of_prices() {
    let lower = Decimal256::raw(1);
    let cur = Decimal256::raw(3);
    let upper = Decimal256::raw(6);
    // |6 - 3| * |1 - 3| against 3 * 6
    assert_eq!(get_position_ratio(lower, cur, upper).unwrap(), PositionRatio::new(6, 18));
    assert!(get_position_ratio(cur, cur, upper).is_err());
}

#[test]
fn price_order_does_not_matter() {
    let amount = dec_str("1000000");
    let a = dec_str("0.9");
    let b = dec_str("1.1");
    assert_eq!(liquidity0(amount, a, b), liquidity0(amount, b, a));
    assert_eq!(liquidity1(amount, a, b), liquidity1(amount, b, a));
}
