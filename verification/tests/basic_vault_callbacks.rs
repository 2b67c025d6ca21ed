use quasar_vaults::basic_vault::callback::{
    can_unbond_after_claim, on_bond, on_start_unbond, on_unbond, plan_start_unbond, push_pending_id,
    remove_pending_id, unlock_passed, BondResponse, BondingStub, OnBondOutcome, OnUnbondOutcome,
    Unbond, UnbondingClaim, UnbondingStub,
};
use quasar_vaults::basic_vault::error::ContractError;
use quasar_vaults::basic_vault::state::{InvestmentInfo, PrimitiveConfig};
use quasar_vaults::coin::coin;
use quasar_vaults::math::decimal::Decimal;

fn primitives() -> Vec<PrimitiveConfig> {
    vec![
        PrimitiveConfig { weight: Decimal::percent(50), address: "p1".to_string() },
        PrimitiveConfig { weight: Decimal::percent(50), address: "p2".to_string() },
    ]
}

fn stub(address: &str) -> BondingStub {
    BondingStub { address: address.to_string(), bond_response: None, primitive_value: None, amount: 10 }
}

#[test]
fn fail_if_duplicate_bond_id() {
    let stubs = vec![
        BondingStub {
            bond_response: Some(BondResponse { share_amount: 5, bond_id: "1".to_string() }),
            ..stub("p1")
        },
        stub("p2"),
    ];
    let err = on_bond(&primitives(), stubs, &"p1".to_string(), 5, &"1".to_string(), None).unwrap_err();
    assert_eq!(err, ContractError::DuplicateBondResponse { bond_id: "1".to_string() });
}

#[test]
fn on_bond_waits_then_mints() {
    let ps = primitives();
    let id = "7".to_string();
    assert_eq!(
        on_bond(&ps, vec![stub("p1")], &"stranger".to_string(), 5, &id, None).unwrap_err(),
        ContractError::Unauthorized
    );
    let stubs = vec![stub("p1"), stub("p2")];
    let stubs = match on_bond(&ps, stubs, &"p1".to_string(), 30, &id, None).unwrap() {
        OnBondOutcome::Pending { stubs, pending } => {
            assert_eq!(pending, 1);
            stubs
        }
        other => panic!("expected pending, got {other:?}"),
    };
    let pending_ids = Some(vec!["3".to_string(), "7".to_string(), "9".to_string()]);
    match on_bond(&ps, stubs, &"p2".to_string(), 12, &id, pending_ids).unwrap() {
        OnBondOutcome::Minted { shares_to_mint, pending_bond_ids, .. } => {
            assert_eq!(shares_to_mint, 42);
            assert_eq!(pending_bond_ids, vec!["3".to_string(), "9".to_string()]);
        }
        other => panic!("expected minted, got {other:?}"),
    }
}

#[test]
fn pending_ids() {
    assert_eq!(remove_pending_id(None, &"1".to_string()).unwrap(), Vec::<String>::new());
    assert_eq!(
        remove_pending_id(Some(vec!["2".to_string()]), &"1".to_string()).unwrap_err(),
        ContractError::IncorrectCallbackId { expected: "1".to_string(), ids: vec!["2".to_string()] }
    );
    assert_eq!(push_pending_id(None, "1".to_string()), vec!["1".to_string()]);
    assert_eq!(push_pending_id(Some(vec!["0".to_string()]), "1".to_string()), vec!["0".to_string(), "1".to_string()]);
}

fn ustub(address: &str) -> UnbondingStub {
    UnbondingStub { address: address.to_string(), unlock_time: None, unbond_response: None, unbond_funds: vec![] }
}

#[test]
fn unbond_flow() {
    let ps = primitives();
    let unbond = Unbond { stub: vec![ustub("p1"), ustub("p2")], shares: 10 };
    let started = on_start_unbond(&ps, Some(unbond), &"p2".to_string(), 1000).unwrap();
    assert_eq!(started.stub[1].unlock_time, Some(1000));
    assert_eq!(on_start_unbond(&ps, None, &"p2".to_string(), 1).unwrap_err(), ContractError::UnbondIsEmpty);
    let user = "user".to_string();
    let id = "5".to_string();
    let waiting = match on_unbond(&ps, started, &"p1".to_string(), &id, vec![coin(3, "uosmo")], &user, None).unwrap() {
        OnUnbondOutcome::Pending { unbond } => unbond,
        other => panic!("expected pending, got {other:?}"),
    };
    assert_eq!(
        on_unbond(&ps, waiting.clone(), &"p2".to_string(), &id, vec![coin(4, "uatom")], &user, None).unwrap_err(),
        ContractError::NoPendingUnbonds
    );
    match on_unbond(&ps, waiting, &"p2".to_string(), &id, vec![coin(4, "uatom")], &user,
        Some(vec!["5".to_string(), "6".to_string(), "5".to_string()])).unwrap()
    {
        OnUnbondOutcome::Done { payments, pending_unbond_ids } => {
            assert_eq!(payments.len(), 2);
            assert_eq!(payments[0].to_address, "user");
            assert_eq!(payments[0].amount, vec![coin(3, "uosmo")]);
            assert_eq!(payments[1].amount, vec![coin(4, "uatom")]);
            assert_eq!(pending_unbond_ids, vec!["6".to_string()]);
        }
        other => panic!("expected done, got {other:?}"),
    }
}

#[test]
fn start_unbond_plan() {
    let invest = InvestmentInfo {
        owner: "owner".to_string(),
        min_withdrawal: 10,
        deposit_denom: "uosmo".to_string(),
        primitives: primitives(),
    };
    assert_eq!(plan_start_unbond(&invest, None, 100, &vec![1, 1], 0, None).unwrap(), None);
    assert_eq!(
        plan_start_unbond(&invest, Some(5), 100, &vec![1, 1], 0, None).unwrap_err(),
        ContractError::UnbondTooSmall { min_bonded: 10 }
    );
    // unbonding 10% of the vault takes 10% of each primitive's shares
    let plan = plan_start_unbond(&invest, Some(10), 100, &vec![500, 1234], 41, Some(vec!["7".to_string()])).unwrap().unwrap();
    assert_eq!(plan.shares_per_primitive, vec![("p1".to_string(), 50), ("p2".to_string(), 123)]);
    assert_eq!(plan.unbond.shares, 10);
    assert_eq!(plan.unbond.stub.len(), 2);
    assert_eq!(plan.next_seq, 42);
    assert_eq!(plan.unbond_id, "41");
    assert_eq!(plan.pending_unbond_ids, vec!["7".to_string(), "41".to_string()]);
}

#[test]
fn unbond_readiness() {
    let mut s = ustub("p1");
    assert!(!unlock_passed(&s, 10));
    s.unlock_time = Some(5);
    assert!(unlock_passed(&s, 10));
    assert!(!unlock_passed(&s, 5));
    assert!(can_unbond_after_claim(None, 10));
    assert!(!can_unbond_after_claim(Some(UnbondingClaim { attempted: true, unlock_time: 1 }), 10));
    assert!(can_unbond_after_claim(Some(UnbondingClaim { attempted: false, unlock_time: 1 }), 10));
    assert!(!can_unbond_after_claim(Some(UnbondingClaim { attempted: false, unlock_time: 10 }), 10));
}

#[test]
fn test_multi_user_bond_unbond() {
    // two users bond through both primitives; the second bond completes first
    let ps = primitives();
    let a = "1".to_string();
    let b = "2".to_string();
    let a_stubs = match on_bond(&ps, vec![stub("p1"), stub("p2")], &"p1".to_string(), 10, &a, None).unwrap() {
        OnBondOutcome::Pending { stubs, .. } => stubs,
        other => panic!("{other:?}"),
    };
    let b_stubs = match on_bond(&ps, vec![stub("p1"), stub("p2")], &"p2".to_string(), 20, &b, None).unwrap() {
        OnBondOutcome::Pending { stubs, .. } => stubs,
        other => panic!("{other:?}"),
    };
    match on_bond(&ps, b_stubs, &"p1".to_string(), 20, &b, Some(vec![b.clone()])).unwrap() {
        OnBondOutcome::Minted { shares_to_mint, pending_bond_ids, .. } => {
            assert_eq!(shares_to_mint, 40);
            assert!(pending_bond_ids.is_empty());
        }
        other => panic!("{other:?}"),
    }
    match on_bond(&ps, a_stubs, &"p2".to_string(), 10, &a, Some(vec![a.clone()])).unwrap() {
        OnBondOutcome::Minted { shares_to_mint, .. } => assert_eq!(shares_to_mint, 20),
        other => panic!("{other:?}"),
    }
}

#[test]
fn test_recipient_not_sender() {
    // the payments of an unbond go to the user who started it, not to the primitive that answered
    let ps = primitives();
    let unbond = Unbond { stub: vec![ustub("p1")], shares: 1 };
    match on_unbond(&ps, unbond, &"p1".to_string(), &"1".to_string(), vec![coin(1, "uosmo")], &"user".to_string(),
        Some(vec!["1".to_string()])).unwrap()
    {
        OnUnbondOutcome::Done { payments, .. } => assert_eq!(payments[0].to_address, "user"),
        other => panic!("{other:?}"),
    }
}
