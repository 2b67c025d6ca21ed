use quasar_vaults::cl_vault::coinlist::OsmoCoin;
use quasar_vaults::cl_vault::error::ContractError;
use quasar_vaults::cl_vault::merge::{
    advance_merge, merge_range, CurrentMergeWithdraw, MergeCandidate, MergeStep, WithdrawResponse,
};
use quasar_vaults::cl_vault::rewards::Rewards;
use quasar_vaults::cl_vault::state::CurrentMergePosition;
use quasar_vaults::coin::coin;
use quasar_vaults::math::decimal::Decimal;

fn osmo(denom: &str, amount: &str) -> OsmoCoin {
    OsmoCoin { denom: denom.into(), amount: amount.into() }
}

fn three(a: &str, b: &str, c: &str) -> Rewards {
    let mut rewards = Rewards::new();
    rewards.update_rewards(vec![osmo("uosmo", a), osmo("uatom", b), osmo("uqsr", c)]).unwrap();
    rewards
}

#[test]
fn rewards_sub_works() {
    let mut rewards = three("1000", "2000", "3000");
    assert_eq!(rewards, Rewards::from_coins(vec![coin(1000, "uosmo"), coin(2000, "uatom"), coin(3000, "uqsr")]));
    rewards.sub(&Rewards::from_coins(vec![coin(1500, "uqsr")])).unwrap();
    assert_eq!(rewards, Rewards::from_coins(vec![coin(1000, "uosmo"), coin(2000, "uatom"), coin(1500, "uqsr")]));
    rewards.sub(&Rewards::from_coins(vec![coin(2000, "uqsr")])).unwrap_err();
    rewards.sub(&Rewards::from_coins(vec![coin(999, "uqsr"), coin(999, "uosmo")])).unwrap();
    assert_eq!(rewards, Rewards::from_coins(vec![coin(1, "uosmo"), coin(2000, "uatom"), coin(501, "uqsr")]));
}

#[test]
fn rewards_percentage_works() {
    let rewards = three("1000", "2000", "3000");
    let ratio = rewards.ratio(Decimal::from_ratio(10, 100));
    assert_eq!(ratio, Rewards::from_coins(vec![coin(100, "uosmo"), coin(200, "uatom"), coin(300, "uqsr")]))
}

#[test]
fn rewards_sub_percentage_works() {
    let mut rewards = three("1000", "2000", "3000");
    let ratio = rewards.sub_ratio(Decimal::from_ratio(10, 100)).unwrap();
    assert_eq!(ratio, Rewards::from_coins(vec![coin(100, "uosmo"), coin(200, "uatom"), coin(300, "uqsr")]));
    assert_eq!(rewards, Rewards::from_coins(vec![coin(900, "uosmo"), coin(1800, "uatom"), coin(2700, "uqsr")]))
}

#[test]
fn rewards_merge_works() {
    let rewards = Rewards::from_coins(vec![coin(1, "uosmo")]);
    let merged = rewards.add(Rewards::from_coins(vec![coin(2, "uatom"), coin(3, "uosmo"), coin(4, "uatom")])).unwrap();
    assert_eq!(merged, Rewards::from_coins(vec![coin(4, "uosmo"), coin(6, "uatom")]));
}

#[test]
fn rewards_add_works() {
    let mut rewards = three("1000", "2000", "3000");
    rewards = rewards
        .add(Rewards::from_coins(vec![
            coin(2000, "uosmo"),
            coin(2000, "uatom"),
            coin(6000, "uqsr"),
            coin(1234, "umars"),
        ]))
        .unwrap();
    assert_eq!(
        rewards,
        Rewards::from_coins(vec![coin(3000, "uosmo"), coin(4000, "uatom"), coin(9000, "uqsr"), coin(1234, "umars")])
    )
}

#[test]
fn rewards_update_rewards_works() {
    let mut rewards = three("1000", "2000", "3000");
    rewards.update_rewards(vec![osmo("uosmo", "1000"), osmo("umars", "1234"), osmo("uqsr", "3000")]).unwrap();
    assert_eq!(
        rewards,
        Rewards::from_coins(vec![coin(2000, "uosmo"), coin(2000, "uatom"), coin(6000, "uqsr"), coin(1234, "umars")])
    );
}

#[test]
fn rewards_percentage_of_user_shares() {
    let rewards = three("1000", "2000", "3000");
    let part = rewards.percentage(400, 100);
    assert_eq!(part, Rewards::from_coins(vec![coin(250, "uosmo"), coin(500, "uatom"), coin(750, "uqsr")]));
    let mut all = rewards.clone();
    let msg = all.claim("alice").unwrap();
    assert_eq!(msg.amount, rewards.into_coins());
    assert!(all.is_empty());
}

fn candidate(id: u64, lower: i64, upper: i64) -> MergeCandidate {
    MergeCandidate { position_id: id, lower_tick: lower, upper_tick: upper }
}

fn withdraw(id: u64) -> CurrentMergeWithdraw {
    CurrentMergeWithdraw { result: None, position_id: id, liquidity_amount: "100".to_string() }
}

#[test]
fn execute_merge_works() {
    let contract = "contract".to_string();
    let positions = vec![candidate(1, -10, 10), candidate(2, -10, 10)];
    assert_eq!(
        merge_range(&"someone".to_string(), &contract, &positions).unwrap_err(),
        ContractError::Unauthorized
    );
    assert_eq!(
        merge_range(&contract, &contract, &vec![candidate(1, -10, 10), candidate(2, -10, 11)]).unwrap_err(),
        ContractError::DifferentTicksInMerge
    );
    assert_eq!(
        merge_range(&contract, &contract, &positions).unwrap(),
        CurrentMergePosition { lower_tick: -10, upper_tick: 10, claim_after_secs: None }
    );
    let t0 = "uatom".to_string();
    let t1 = "uosmo".to_string();
    let queue = vec![withdraw(1), withdraw(2)];
    let (queue, step) = advance_merge(queue, WithdrawResponse { amount0: 5, amount1: 0 }, &t0, &t1);
    assert_eq!(step, MergeStep::Withdraw { position_id: 2, liquidity_amount: "100".to_string() });
    let (_, step) = advance_merge(queue, WithdrawResponse { amount0: 7, amount1: 0 }, &t0, &t1);
    assert_eq!(step, MergeStep::CreatePosition { tokens: vec![coin(12, "uatom")] });
}

#[test]
fn strategist_fee_from_collected_rewards() {
    let collected = vec![coin(1000, "uosmo"), coin(5, "uatom"), coin(1000, "uosmo")];
    let fee = quasar_vaults::cl_vault::rewards::strategist_fee_payment(
        collected,
        Decimal::percent(20),
        "treasury".to_string(),
    )
    .unwrap()
    .unwrap();
    assert_eq!(fee.to_address, "treasury");
    assert_eq!(fee.amount, vec![coin(1, "uatom"), coin(400, "uosmo")]);
    let none = quasar_vaults::cl_vault::rewards::strategist_fee_payment(
        vec![coin(3, "uosmo")],
        Decimal::percent(20),
        "treasury".to_string(),
    )
    .unwrap();
    assert!(none.is_none());
    let zero_fee = quasar_vaults::cl_vault::rewards::strategist_fee_payment(
        vec![coin(3000, "uosmo")],
        Decimal::zero(),
        "treasury".to_string(),
    )
    .unwrap();
    assert!(zero_fee.is_none());
}

#[test]
fn rewards_as_attributes() {
    let rewards = Rewards::from_coins(vec![coin(12, "uosmo"), coin(0, "uatom")]);
    let attrs = rewards.into_attributes();
    assert_eq!(attrs.len(), 2);
    assert_eq!(attrs[0].key, "uosmo");
    assert_eq!(attrs[0].value, "12");
    assert_eq!(attrs[1].key, "uatom");
    assert_eq!(attrs[1].value, "0");
}

#[test]
fn distribution_by_locked_shares() {
    let rewards = Rewards::from_coins(vec![coin(100, "uosmo"), coin(7, "uatom")]);
    let users = vec![
        ("alice".to_string(), 1u128, None),
        ("bob".to_string(), 2u128, Some(Rewards::from_coins(vec![coin(5, "uosmo")]))),
    ];
    let out = quasar_vaults::cl_vault::rewards::distribute_rewards(&rewards, 3, users);
    assert_eq!(out.len(), 2);
    assert_eq!(out[0].0, "alice");
    assert_eq!(out[0].1, Rewards::from_coins(vec![coin(33, "uosmo"), coin(2, "uatom")]));
    assert_eq!(out[1].0, "bob");
    assert_eq!(out[1].1, Rewards::from_coins(vec![coin(71, "uosmo"), coin(4, "uatom")]));
    // the parts handed out add up to no more than was collected
    let handed_out = out[0].1 .0[0].amount + (out[1].1 .0[0].amount - 5);
    assert!(handed_out <= 100);
}
