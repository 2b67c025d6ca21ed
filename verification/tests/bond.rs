use std::str::FromStr;
use quasar_vaults::basic_vault::bond::{must_pay, nonpayable, plan_bond, select_unbondable};
use quasar_vaults::basic_vault::callback::{plan_start_unbond, UnbondingClaim, UnbondingStub};
use quasar_vaults::basic_vault::error::{ContractError, PaymentError};
use quasar_vaults::basic_vault::execute::{get_deposit_amount_weights, CoinRatio, CoinWeight, PrimitiveBalance};
use quasar_vaults::basic_vault::state::{Cap, InvestmentInfo, PrimitiveConfig};
use quasar_vaults::coin::coin;
use quasar_vaults::math::decimal::Decimal;
use quasar_vaults::math::uint::{CheckedFromRatioError, OverflowError, OverflowOperation};

fn invest() -> InvestmentInfo {
    InvestmentInfo {
        owner: "owner".to_string(),
        min_withdrawal: 10,
        deposit_denom: "uosmo".to_string(),
        primitives: vec![
            PrimitiveConfig { weight: Decimal::percent(25), address: "p1".to_string() },
            PrimitiveConfig { weight: Decimal::percent(75), address: "p2".to_string() },
        ],
    }
}

#[test]
fn payment_checks() {
    assert_eq!(nonpayable(&vec![]), Ok(()));
    assert_eq!(nonpayable(&vec![coin(1, "a")]), Err(PaymentError::NonPayable));
    let denom = "uosmo".to_string();
    assert_eq!(must_pay(&vec![], &denom), Err(PaymentError::NoFunds));
    assert_eq!(must_pay(&vec![coin(0, "uosmo")], &denom), Err(PaymentError::NoFunds));
    assert_eq!(must_pay(&vec![coin(1, "uosmo"), coin(2, "x")], &denom), Err(PaymentError::MultipleDenoms));
    assert_eq!(must_pay(&vec![coin(5, "x")], &denom), Err(PaymentError::MissingDenom(denom.clone())));
    assert_eq!(must_pay(&vec![coin(5, "uosmo")], &denom), Ok(5));
}

fn even_invest() -> InvestmentInfo {
    InvestmentInfo {
        owner: "creator".to_string(),
        min_withdrawal: 1,
        deposit_denom: "ibc/uosmo".to_string(),
        primitives: vec![
            PrimitiveConfig { weight: Decimal::one(), address: "quasar123".to_string() },
            PrimitiveConfig { weight: Decimal::one(), address: "quasar124".to_string() },
            PrimitiveConfig { weight: Decimal::one(), address: "quasar125".to_string() },
        ],
    }
}

fn even_ratio(invest: &InvestmentInfo) -> CoinRatio {
    let balances = vec![
        PrimitiveBalance { denom: "ibc/uosmo".to_string(), balance: 100, supply: 100 },
        PrimitiveBalance { denom: "ibc/uatom".to_string(), balance: 100, supply: 100 },
        PrimitiveBalance { denom: "ibc/ustars".to_string(), balance: 100, supply: 100 },
    ];
    let mut normalized = invest.clone();
    normalized.normalize_primitive_weights();
    get_deposit_amount_weights(&normalized.primitives, &balances).unwrap()
}

fn even_deposit() -> Vec<quasar_vaults::coin::Coin> {
    vec![coin(100, "ibc/uosmo"), coin(100, "ibc/uatom"), coin(100, "ibc/ustars")]
}

#[test]
fn proper_bond() {
    let invest = even_invest();
    let ratio = even_ratio(&invest);
    let cap = Cap::new("creator".to_string(), 10_000_000_000_000);
    let plan = plan_bond(invest, cap, &even_deposit(), &ratio, 1, None).unwrap();
    assert_eq!(plan.bond_id, "1");
    assert_eq!(
        plan.bonds,
        vec![
            (coin(99, "ibc/uosmo"), "quasar123".to_string()),
            (coin(99, "ibc/uatom"), "quasar124".to_string()),
            (coin(99, "ibc/ustars"), "quasar125".to_string()),
        ]
    );
    assert_eq!(plan.refund, vec![coin(1, "ibc/uosmo"), coin(1, "ibc/uatom"), coin(1, "ibc/ustars")]);
    assert_eq!(plan.stubs.len(), 3);
    assert_eq!(plan.stubs[2].address, "quasar125");
    assert_eq!(plan.stubs[2].amount, 99);
    assert!(plan.stubs[0].bond_response.is_none());
    assert_eq!(plan.cap.current(), 297);
    assert_eq!(plan.pending_ids, vec!["1".to_string()]);
    assert_eq!(plan.next_seq, 2);
}

#[test]
fn bond_plan_records_pending_ids() {
    let invest = even_invest();
    let ratio = even_ratio(&invest);
    let cap = Cap::new("admin".to_string(), 1000);
    let plan = plan_bond(invest, cap, &even_deposit(), &ratio, 7, Some(vec!["3".to_string()])).unwrap();
    assert_eq!(plan.bond_id, "7");
    assert_eq!(plan.pending_ids, vec!["3".to_string(), "7".to_string()]);
    assert_eq!(plan.next_seq, 8);
    assert_eq!(plan.cap.total(), 1000);
}

#[test]
fn bond_plan_errors() {
    let invest = even_invest();
    let ratio = even_ratio(&invest);
    let cap = Cap::new("admin".to_string(), 100);
    assert_eq!(plan_bond(invest.clone(), cap, &even_deposit(), &ratio, 1, None), Err(ContractError::OverCap));
    let cap = Cap::new("admin".to_string(), 1000);
    assert_eq!(
        plan_bond(invest.clone(), cap, &even_deposit(), &ratio, u128::MAX, None),
        Err(ContractError::OverflowError(OverflowError { operation: OverflowOperation::Add }))
    );
    let cap = Cap::new("admin".to_string(), 1000);
    assert_eq!(
        plan_bond(invest.clone(), cap, &even_deposit(), &CoinRatio { ratio: vec![] }, 1, None),
        Err(ContractError::CoinsWeightVectorIsEmpty)
    );
    let cap = Cap::new("admin".to_string(), 1000);
    assert!(plan_bond(invest, cap, &vec![coin(100, "ibc/uosmo")], &ratio, 1, None).is_err());
}

#[test]
fn bond_refund_leaves_out_zero_remainders() {
    let invest = InvestmentInfo {
        owner: "creator".to_string(),
        min_withdrawal: 1,
        deposit_denom: "ibc/uosmo".to_string(),
        primitives: vec![PrimitiveConfig { weight: Decimal::one(), address: "quasar123".to_string() }],
    };
    let ratio = CoinRatio { ratio: vec![CoinWeight { denom: "ibc/uosmo".to_string(), weight: Decimal::one() }] };
    let cap = Cap::new("admin".to_string(), 1000);
    let plan = plan_bond(invest, cap, &vec![coin(100, "ibc/uosmo")], &ratio, 1, None).unwrap();
    assert_eq!(plan.bonds, vec![(coin(100, "ibc/uosmo"), "quasar123".to_string())]);
    assert_eq!(plan.refund, vec![]);
    assert_eq!(plan.cap.current(), 100);
}

fn ustub(address: &str, unlock_time: Option<u64>) -> UnbondingStub {
    UnbondingStub { address: address.to_string(), unlock_time, unbond_response: None, unbond_funds: vec![] }
}

#[test]
fn unbondable_selection() {
    let stubs = vec![
        ustub("a", Some(5)),
        ustub("b", Some(50)),
        ustub("c", None),
        ustub("d", Some(5)),
        ustub("e", Some(5)),
    ];
    let claims = vec![
        None,
        None,
        None,
        Some(UnbondingClaim { attempted: true, unlock_time: 1 }),
        Some(UnbondingClaim { attempted: false, unlock_time: 9 }),
    ];
    assert_eq!(select_unbondable(&stubs, &claims, 10), vec!["a".to_string(), "e".to_string()]);
    assert_eq!(select_unbondable(&stubs, &claims, 9), vec!["a".to_string()]);
}

#[test]
fn start_unbond_first_failure_decides() {
    let inv = invest();
    let res = plan_start_unbond(&inv, Some(100), 100, &vec![u128::MAX, 5], 1, None);
    assert_eq!(res, Err(ContractError::MultiplyRatioError(CheckedFromRatioError::Overflow)));
    let res = plan_start_unbond(&inv, Some(100), 100, &vec![5, u128::MAX], 1, None);
    assert_eq!(res, Err(ContractError::MultiplyRatioError(CheckedFromRatioError::Overflow)));
}

#[test]
fn test_dup_token_deposits() {
    let deposit_amounts = vec![10u128, 1_000, 1_000_000_000];
    for deposit_amount in deposit_amounts {
        let weights = vec![
            cosmwasm_std::Decimal::from_str("0.2").unwrap(),
            cosmwasm_std::Decimal::from_str("0.3").unwrap(),
            cosmwasm_std::Decimal::from_str("0.5").unwrap(),
        ];
        let invest = InvestmentInfo {
            owner: "creator".to_string(),
            min_withdrawal: 1,
            deposit_denom: "ibc/uosmo".to_string(),
            primitives: (1..=3)
                .map(|i| PrimitiveConfig {
                    weight: Decimal::raw(weights[i - 1].atomics().u128()),
                    address: format!("quasar{i}"),
                })
                .collect(),
        };
        let balances: Vec<PrimitiveBalance> = (1..=3)
            .map(|_| PrimitiveBalance { denom: "ibc/uosmo".to_string(), balance: 100, supply: 100 })
            .collect();
        let mut normalized = invest.clone();
        normalized.normalize_primitive_weights();
        let ratio = get_deposit_amount_weights(&normalized.primitives, &balances).unwrap();
        let cap = Cap::new("creator".to_string(), u128::MAX);
        let plan = plan_bond(invest, cap, &vec![coin(deposit_amount, "ibc/uosmo")], &ratio, 1, None).unwrap();
        assert_eq!(plan.bonds.len(), 3);
        let total_weight: cosmwasm_std::Decimal = weights.iter().copied().sum();
        assert_eq!(total_weight, cosmwasm_std::Decimal::one());
        for (i, (c, _)) in plan.bonds.iter().enumerate() {
            let expected = weights[i] / total_weight * cosmwasm_std::Uint128::new(deposit_amount);
            assert_eq!(expected.u128(), c.amount);
        }
    }
}
