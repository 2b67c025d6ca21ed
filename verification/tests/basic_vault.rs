use quasar_vaults::basic_vault::msg::{primitive_config_matches, LpStrategySettings, PrimitiveInitMsg};
use cosmwasm_std::Fraction;
use std::str::FromStr;

use quasar_vaults::basic_vault::error::{ContractError, PaymentError};
use quasar_vaults::basic_vault::execute::{
    divide_by_ratio, get_deposit_amount_weights, get_deposit_and_remainder_for_ratio,
    get_max_bond, get_token_amount_weights, may_pay_with_ratio, must_pay_multi, CoinRatio,
    CoinWeight, PrimitiveBalance,
};
use quasar_vaults::basic_vault::state::{Cap, InvestmentInfo, PrimitiveConfig};
use quasar_vaults::coin::{coin, Coin};
use quasar_vaults::math::decimal::Decimal;

type CwDecimal = cosmwasm_std::Decimal;

fn dec(d: CwDecimal) -> Decimal {
    Decimal::raw(d.atomics().u128())
}

fn cw(d: Decimal) -> CwDecimal {
    CwDecimal::raw(d.atomics())
}

fn cw_weight(denom: &str, weight: CwDecimal) -> CoinWeight {
    CoinWeight { denom: denom.to_string(), weight: dec(weight) }
}

fn config(address: &str, weight: CwDecimal) -> PrimitiveConfig {
    PrimitiveConfig { weight: dec(weight), address: address.to_string() }
}

fn balance(denom: &str, balance: u128, supply: u128) -> PrimitiveBalance {
    PrimitiveBalance { denom: denom.to_string(), balance, supply }
}

fn two_token_setup() -> (Vec<Coin>, Vec<CoinWeight>, CwDecimal, CwDecimal) {
    let first_weight = CwDecimal::from_ratio(
        CwDecimal::from_str("3.5").unwrap() * cosmwasm_std::Uint128::new(100),
        100u128,
    );
    let second_weight = CwDecimal::from_ratio(CwDecimal::one() * cosmwasm_std::Uint128::new(400), 200u128);
    let total = first_weight + second_weight;
    let expected_first_weight = CwDecimal::from_ratio(
        first_weight.numerator() * total.denominator(),
        first_weight.denominator() * total.numerator(),
    );
    let expected_second_weight = CwDecimal::from_ratio(
        second_weight.numerator() * total.denominator(),
        second_weight.denominator() * total.numerator(),
    );
    let funds = vec![coin(1000, "ibc/uosmo"), coin(200, "ibc/uatom")];
    let token_weights = get_token_amount_weights(&vec![
        cw_weight("ibc/uosmo", expected_first_weight),
        cw_weight("ibc/uatom", expected_second_weight),
    ])
    .unwrap();
    (funds, token_weights, expected_first_weight, expected_second_weight)
}

#[test]
fn test_get_token_amount_weights() {
    let (_, token_weights, expected_first_weight, expected_second_weight) = two_token_setup();
    assert_eq!(cw(token_weights[0].weight), expected_first_weight);
    assert_eq!(cw(token_weights[1].weight), expected_second_weight);
}

#[test]
fn test_get_token_amount_weights_duplicate_tokens() {
    let token_weights = get_token_amount_weights(&vec![
        cw_weight("ibc/uosmo", CwDecimal::percent(20)),
        cw_weight("ibc/uatom", CwDecimal::percent(30)),
        cw_weight("ibc/uosmo", CwDecimal::percent(50)),
    ])
    .unwrap();
    assert_eq!(token_weights.len(), 2);
    assert_eq!(token_weights[0].denom, "ibc/uosmo");
    assert_eq!(cw(token_weights[0].weight), CwDecimal::percent(70));
    assert_eq!(token_weights[1].denom, "ibc/uatom");
    assert_eq!(cw(token_weights[1].weight), CwDecimal::percent(30));
}

#[test]
fn get_token_amount_weights_overflow_is_an_error() {
    let err = get_token_amount_weights(&vec![
        CoinWeight { denom: "a".to_string(), weight: Decimal::max() },
        CoinWeight { denom: "a".to_string(), weight: Decimal::raw(1) },
    ])
    .unwrap_err();
    assert!(matches!(err, ContractError::OverflowError(_)));
}

#[test]
fn test_get_max_bond() {
    let (funds, token_weights, _, _) = two_token_setup();
    let expected_max_bond = std::cmp::min(
        CwDecimal::from_ratio(
            cosmwasm_std::Uint128::new(funds[0].amount) * cw(token_weights[0].weight).denominator(),
            cw(token_weights[0].weight).numerator(),
        )
        .to_uint_floor(),
        CwDecimal::from_ratio(
            cosmwasm_std::Uint128::new(funds[1].amount) * cw(token_weights[1].weight).denominator(),
            cw(token_weights[1].weight).numerator(),
        )
        .to_uint_floor(),
    );
    let max_bond = get_max_bond(&funds, &token_weights).unwrap();
    assert_eq!(max_bond.to_uint_floor(), expected_max_bond.u128());
}

#[test]
fn get_max_bond_missing_denom() {
    let (_, token_weights, _, _) = two_token_setup();
    let err = get_max_bond(&vec![coin(1000, "ibc/uosmo")], &token_weights).unwrap_err();
    assert_eq!(err, ContractError::Payment(PaymentError::MissingDenom("ibc/uatom".to_string())));
}

#[test]
fn test_get_deposit_and_remainder_for_ratio() {
    let (funds, token_weights, _, _) = two_token_setup();
    let max_bond = get_max_bond(&funds, &token_weights).unwrap();
    let (deposit, remainder) = get_deposit_and_remainder_for_ratio(
        &funds,
        max_bond,
        &CoinRatio { ratio: token_weights.clone() },
    )
    .unwrap();
    let expected_first_deposit = cw(token_weights[0].weight) * cw(max_bond);
    let expected_second_deposit = cw(token_weights[1].weight) * cw(max_bond);
    assert_eq!(deposit[0].amount, expected_first_deposit.to_uint_floor().u128());
    assert_eq!(deposit[1].amount, expected_second_deposit.to_uint_floor().u128());
    assert_eq!(remainder[0].amount, funds[0].amount - expected_first_deposit.to_uint_floor().u128());
    assert_eq!(remainder[1].amount, funds[1].amount - expected_second_deposit.to_uint_floor().u128());
}

#[test]
fn test_get_deposit_and_remainder_for_ratio_three_primitives() {
    let configs = vec![
        config("quasar123", CwDecimal::from_str("3.5").unwrap()),
        config("quasar124", CwDecimal::one()),
        config("quasar125", CwDecimal::from_str("0.5").unwrap()),
    ];
        let balances = vec![
        balance("ibc/uosmo", 100, 100),
        balance("ibc/uatom", 400, 200),
        balance("ibc/ustars", 450, 600),
    ];
    let weights = get_deposit_amount_weights(&configs, &balances).unwrap();
    let funds = vec![coin(1000, "ibc/uosmo"), coin(200, "ibc/uatom"), coin(200, "ibc/ustars")];
    let token_weights = get_token_amount_weights(&weights.ratio).unwrap();
    assert_eq!(token_weights, weights.ratio);
    let max_bond = get_max_bond(&funds, &token_weights).unwrap();
    let (deposit, remainder) = get_deposit_and_remainder_for_ratio(&funds, max_bond, &weights).unwrap();
    for i in 0..3 {
        let expected = (cw(token_weights[i].weight) * cw(max_bond)).to_uint_floor().u128();
        assert_eq!(deposit[i].amount, expected);
        assert_eq!(remainder[i].amount, funds[i].amount - expected);
    }
}

#[test]
fn deposit_amount_weights_normalize() {
    let configs = vec![config("quasar123", CwDecimal::from_str("3.5").unwrap()), config("quasar124", CwDecimal::one())];
    let balances = vec![balance("ibc/uosmo", 100, 100), balance("ibc/uatom", 400, 200)];
    let weights = get_deposit_amount_weights(&configs, &balances).unwrap();
    let first = CwDecimal::from_str("3.5").unwrap();
    let second = CwDecimal::from_str("2").unwrap();
    let total = first + second;
    assert_eq!(cw(weights.ratio[0].weight), first / total);
    assert_eq!(cw(weights.ratio[1].weight), second / total);
    let bad = vec![balance("ibc/uosmo", 0, 100), balance("ibc/uatom", 400, 200)];
    assert!(get_deposit_amount_weights(&configs, &bad).is_err());
}

#[test]
fn test_may_pay_with_one_primitive() {
    let configs = vec![config("quasar123", CwDecimal::from_str("2.0").unwrap())];
    let balances = vec![balance("ibc/uosmo", 100, 100)];
    let funds = vec![coin(200, "ibc/uosmo")];
    let deposit_amount_ratio = get_deposit_amount_weights(&configs, &balances).unwrap();
    let token_weights = get_token_amount_weights(&deposit_amount_ratio.ratio).unwrap();
    let max_bond = get_max_bond(&funds, &token_weights).unwrap();
    let (coins, remainder) = get_deposit_and_remainder_for_ratio(&funds, max_bond, &deposit_amount_ratio).unwrap();
    assert_eq!(coins.len(), 1);
    assert_eq!(coins[0].amount, 200);
    assert_eq!(remainder.len(), 1);
    assert_eq!(remainder[0].amount, 0);
}

#[test]
fn test_may_pay_with_even_ratio() {
    let configs = vec![
        config("quasar123", CwDecimal::one()),
        config("quasar124", CwDecimal::one()),
        config("quasar125", CwDecimal::one()),
    ];
    let balances = vec![
        balance("ibc/uosmo", 100, 100),
        balance("ibc/uatom", 100, 100),
        balance("ibc/ustars", 100, 100),
    ];
    let funds = vec![coin(100, "ibc/uosmo"), coin(100, "ibc/uatom"), coin(100, "ibc/ustars")];
    let mut invest = InvestmentInfo {
        owner: "owner".to_string(),
        min_withdrawal: 1,
        deposit_denom: "ibc/uosmo".to_string(),
        primitives: configs,
    };
    invest.normalize_primitive_weights();
    let ratio = get_deposit_amount_weights(&invest.primitives, &balances).unwrap();
    let (coins, remainder) = may_pay_with_ratio(&funds, &ratio).unwrap();
    assert_eq!(coins.len(), 3);
    assert_eq!(coins[0].amount, 99); // 99 because 0.33333 results in coins getting floored
    assert_eq!(coins[1].amount, 99);
    assert_eq!(coins[2].amount, 99);
    assert_eq!(remainder.len(), 3);
    assert_eq!(remainder[0].amount, 1);
    assert_eq!(remainder[1].amount, 1);
    assert_eq!(remainder[2].amount, 1);
}

#[test]
fn test_may_pay_with_uneven_ratio() {
    let configs = vec![
        config("quasar123", CwDecimal::from_str("2.0").unwrap()),
        config("quasar124", CwDecimal::one()),
        config("quasar125", CwDecimal::one()),
    ];
    let balances = vec![
        balance("ibc/uosmo", 100, 100),
        balance("ibc/uatom", 200, 150),
        balance("ibc/ustars", 300, 250),
    ];
    let funds = vec![coin(200, "ibc/uosmo"), coin(150, "ibc/uatom"), coin(140, "ibc/ustars")];
    let deposit_amount_ratio = get_deposit_amount_weights(&configs, &balances).unwrap();
    let token_weights = get_token_amount_weights(&deposit_amount_ratio.ratio).unwrap();
    let max_bond = get_max_bond(&funds, &token_weights).unwrap();
    let (coins, remainder) = get_deposit_and_remainder_for_ratio(&funds, max_bond, &deposit_amount_ratio).unwrap();
    assert_eq!(coins.len(), 3);
    assert_eq!(coins[0].amount, 199);
    assert_eq!(coins[1].amount, 133);
    assert_eq!(coins[2].amount, 119);
    assert_eq!(remainder.len(), 3);
    assert_eq!(remainder[0].amount, 1);
    assert_eq!(remainder[1].amount, 17);
    assert_eq!(remainder[2].amount, 21);
}

#[test]
fn may_pay_refuses_empty_and_zero_weights() {
    let funds = vec![coin(100, "ibc/uosmo")];
    assert_eq!(
        may_pay_with_ratio(&funds, &CoinRatio { ratio: vec![] }).unwrap_err(),
        ContractError::CoinsWeightVectorIsEmpty
    );
    let zero = CoinRatio { ratio: vec![CoinWeight { denom: "ibc/uosmo".to_string(), weight: Decimal::zero() }] };
    assert!(matches!(may_pay_with_ratio(&funds, &zero).unwrap_err(), ContractError::Std(_)));
    let missing = CoinRatio { ratio: vec![CoinWeight { denom: "ibc/uatom".to_string(), weight: Decimal::one() }] };
    assert_eq!(
        may_pay_with_ratio(&funds, &missing).unwrap_err(),
        ContractError::Payment(PaymentError::MissingDenom("ibc/uatom".to_string()))
    );
}

#[test]
fn must_pay_multi_finds_first_positive() {
    let funds = vec![coin(0, "a"), coin(5, "b"), coin(7, "b")];
    assert_eq!(must_pay_multi(&funds, &"b".to_string()), Ok(5));
    assert_eq!(must_pay_multi(&funds, &"a".to_string()), Err(PaymentError::MissingDenom("a".to_string())));
    assert_eq!(must_pay_multi(&funds, &"c".to_string()), Err(PaymentError::MissingDenom("c".to_string())));
}

#[test]
fn divide_by_ratio_splits_by_weight() {
    let invest = InvestmentInfo {
        owner: "owner".to_string(),
        min_withdrawal: 1000,
        deposit_denom: "ibc/osmo".to_string(),
        primitives: vec![config("p1", CwDecimal::percent(25)), config("p2", CwDecimal::percent(75))],
    };
    let shares = divide_by_ratio(coin(1001, "ibc/osmo"), invest).unwrap();
    assert_eq!(shares, vec![(coin(250, "ibc/osmo"), "p1".to_string()), (coin(750, "ibc/osmo"), "p2".to_string())]);
}

#[test]
fn test_investment_info() {
    let mut invest = InvestmentInfo {
        owner: "owner".to_string(),
        min_withdrawal: 1000,
        primitives: vec![config("primitive", CwDecimal::percent(50)); 4],
        deposit_denom: "ibc/osmo".to_string(),
    };
    invest.normalize_primitive_weights();
    assert_eq!(cw(invest.primitives[0].weight), CwDecimal::percent(25));
}

#[test]
fn cap_update_current() {
    let cap = Cap::new("admin".to_string(), 100);
    let cap = cap.update_current(60).unwrap();
    assert_eq!(cap.clone().update_current(41).unwrap_err(), ContractError::OverCap);
    let cap = cap.update_total_cap(200).update_cap_admin("other".to_string());
    assert!(cap.update_current(140).is_ok());
}

#[test]
fn test_get_deposit_amount_weights() {
    let mut invest = InvestmentInfo {
        owner: "creator".to_string(),
        min_withdrawal: 1,
        deposit_denom: "ibc/uosmo".to_string(),
        primitives: vec![
            config("quasar123", CwDecimal::from_str("3.5").unwrap()),
            config("quasar124", CwDecimal::one()),
        ],
    };
    invest.normalize_primitive_weights();
    let balances = vec![balance("ibc/uosmo", 100, 100), balance("ibc/uatom", 400, 200)];
    let weights = get_deposit_amount_weights(&invest.primitives, &balances).unwrap();

    let first_weight = CwDecimal::from_ratio(CwDecimal::from_str("3.5").unwrap() * cosmwasm_std::Uint128::new(100), 100u128);
    let second_weight = CwDecimal::from_ratio(CwDecimal::one() * cosmwasm_std::Uint128::new(400), 200u128);
    let total = first_weight + second_weight;
    let expected_first_weight = CwDecimal::from_ratio(
        first_weight.numerator() * total.denominator(),
        first_weight.denominator() * total.numerator(),
    );
    let expected_second_weight = CwDecimal::from_ratio(
        second_weight.numerator() * total.denominator(),
        second_weight.denominator() * total.numerator(),
    );
    assert_eq!(cw(weights.ratio[0].weight), expected_first_weight);
    assert_eq!(cw(weights.ratio[1].weight), expected_second_weight);
}

#[test]
fn primitive_config_must_match_its_init() {
    let settings = LpStrategySettings {
        lock_period: 3600,
        pool_id: 2,
        pool_denom: "gamm/pool/2".to_string(),
        local_denom: "ibc/ED07".to_string(),
        base_denom: "uosmo".to_string(),
        quote_denom: "usdc".to_string(),
        transfer_channel: "channel-0".to_string(),
        return_source_channel: "channel-1".to_string(),
        expected_connection: "connection-0".to_string(),
    };
    assert!(primitive_config_matches(&settings, &PrimitiveInitMsg::LP(settings.clone())));
    let mut other = settings.clone();
    other.return_source_channel = "channel-9".to_string();
    assert!(!primitive_config_matches(&settings, &PrimitiveInitMsg::LP(other)));
    let mut other = settings.clone();
    other.lock_period = 1;
    assert!(!primitive_config_matches(&settings, &PrimitiveInitMsg::LP(other)));
}
