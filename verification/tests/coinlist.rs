use quasar_vaults::cl_vault::coinlist::{CoinList, OsmoCoin};
use quasar_vaults::cl_vault::error::ContractError;
use quasar_vaults::coin::{coin, sort_tokens, Coin};
use quasar_vaults::math::decimal::Decimal;

fn osmo(denom: &str, amount: &str) -> OsmoCoin {
    OsmoCoin { denom: denom.into(), amount: amount.into() }
}

fn three_rewards(a: &str, b: &str, c: &str) -> CoinList {
    let mut rewards = CoinList::new();
    rewards
        .update_rewards(&vec![osmo("uosmo", a), osmo("uatom", b), osmo("uqsr", c)])
        .unwrap();
    rewards
}

#[test]
fn coins_works() {
    let rewards = three_rewards("1000", "10", "3000");
    let positive_coins = rewards.coins();
    assert_eq!(
        positive_coins,
        vec![coin(10, "uatom"), coin(1000, "uosmo"), coin(3000, "uqsr"),]
    );
}

#[test]
fn coins_only_positive_works() {
    let rewards = three_rewards("1000", "0", "3000");
    let positive_coins = rewards.coins();
    assert_eq!(positive_coins, vec![coin(1000, "uosmo"), coin(3000, "uqsr"),]);
}

fn check_sub_works() {
    let mut rewards = three_rewards("1000", "2000", "3000");
    assert_eq!(
        rewards,
        CoinList::from_coins(vec![coin(1000, "uosmo"), coin(2000, "uatom"), coin(3000, "uqsr")])
    );
    rewards.sub(&CoinList::from_coins(vec![coin(1500, "uqsr")])).unwrap();
    assert_eq!(
        rewards,
        CoinList::from_coins(vec![coin(1000, "uosmo"), coin(2000, "uatom"), coin(1500, "uqsr")])
    );
    rewards.sub(&CoinList::from_coins(vec![coin(2000, "uqsr")])).unwrap_err();
    rewards
        .sub(&CoinList::from_coins(vec![coin(999, "uqsr"), coin(999, "uosmo")]))
        .unwrap();
    assert_eq!(
        rewards,
        CoinList::from_coins(vec![coin(1, "uosmo"), coin(2000, "uatom"), coin(501, "uqsr")])
    );
}

fn check_percentage_works() {
    let rewards = three_rewards("1000", "2000", "3000");
    let ratio = rewards.mul_ratio(Decimal::from_ratio(10, 100));
    assert_eq!(
        ratio,
        CoinList::from_coins(vec![coin(100, "uosmo"), coin(200, "uatom"), coin(300, "uqsr")])
    )
}

fn check_sub_percentage_works() {
    let mut rewards = three_rewards("1000", "2000", "3000");
    let ratio = rewards.sub_ratio(Decimal::from_ratio(10, 100)).unwrap();
    assert_eq!(
        ratio,
        CoinList::from_coins(vec![coin(100, "uosmo"), coin(200, "uatom"), coin(300, "uqsr")])
    );
    assert_eq!(
        rewards,
        CoinList::from_coins(vec![coin(900, "uosmo"), coin(1800, "uatom"), coin(2700, "uqsr")])
    )
}

fn check_merge_works() {
    let mut rewards = CoinList::from_coins(vec![coin(1, "uosmo"), coin(2, "uatom")]);
    rewards
        .merge(vec![coin(10, "uatom"), coin(5, "umars"), coin(100, "uosmo"), coin(1, "umars")])
        .unwrap();
    assert_eq!(
        rewards,
        CoinList::from_coins(vec![coin(101, "uosmo"), coin(12, "uatom"), coin(6, "umars")])
    );
}

fn check_add_works() {
    let mut rewards = three_rewards("1000", "2000", "3000");
    rewards
        .add(CoinList::from_coins(vec![
            coin(2000, "uosmo"),
            coin(2000, "uatom"),
            coin(6000, "uqsr"),
            coin(1234, "umars"),
        ]))
        .unwrap();
    assert_eq!(
        rewards,
        CoinList::from_coins(vec![
            coin(3000, "uosmo"),
            coin(4000, "uatom"),
            coin(9000, "uqsr"),
            coin(1234, "umars")
        ])
    )
}

fn check_update_rewards_works() {
    let mut rewards = three_rewards("1000", "2000", "3000");
    rewards
        .update_rewards(&vec![osmo("uosmo", "1000"), osmo("umars", "1234"), osmo("uqsr", "3000")])
        .unwrap();
    assert_eq!(
        rewards,
        CoinList::from_coins(vec![
            coin(2000, "uosmo"),
            coin(2000, "uatom"),
            coin(6000, "uqsr"),
            coin(1234, "umars")
        ])
    );
}

#[test]
fn coinlist_sub_works() {
    check_sub_works();
}

#[test]
fn coinlist_percentage_works() {
    check_percentage_works();
}

#[test]
fn coinlist_sub_percentage_works() {
    check_sub_percentage_works();
}

#[test]
fn coinlist_merge_works() {
    check_merge_works();
}

#[test]
fn coinlist_add_works() {
    check_add_works();
}

#[test]
fn coinlist_update_rewards_works() {
    check_update_rewards_works();
}

#[test]
fn helpers_sub_works() {
    check_sub_works();
}

#[test]
fn helpers_percentage_works() {
    check_percentage_works();
}

#[test]
fn helpers_sub_percentage_works() {
    check_sub_percentage_works();
}

#[test]
fn helpers_merge_works() {
    check_merge_works();
}

#[test]
fn helpers_add_works() {
    check_add_works();
}

#[test]
fn helpers_update_rewards_works() {
    check_update_rewards_works();
}

#[test]
fn update_rewards_rejects_malformed_amount_and_keeps_list() {
    let mut rewards = three_rewards("1000", "2000", "3000");
    let before = rewards.clone();
    let err = rewards
        .update_rewards(&vec![osmo("uosmo", "5"), osmo("uatom", "12a")])
        .unwrap_err();
    assert!(matches!(err, ContractError::Std(_)));
    assert_eq!(rewards, before);
    assert!(rewards.update_rewards(&vec![osmo("uosmo", "")]).is_err());
    assert!(rewards.update_rewards(&vec![osmo("uosmo", "+")]).is_err());
    assert!(rewards
        .update_rewards(&vec![osmo("uosmo", "340282366920938463463374607431768211456")])
        .is_err());
    rewards.update_rewards(&vec![osmo("uosmo", "+7")]).unwrap();
    assert_eq!(rewards.find_coin("uosmo".to_string()), coin(1007, "uosmo"));
}

#[test]
fn sub_ratio_with_zero_ratio_takes_nothing() {
    let mut rewards = three_rewards("1000", "2000", "3000");
    let taken = rewards.sub_ratio(Decimal::zero()).unwrap();
    assert!(taken.is_empty());
    assert_eq!(rewards, three_rewards("1000", "2000", "3000"));
}

#[test]
fn find_coin_missing_gives_zero() {
    let rewards = three_rewards("1000", "2000", "3000");
    assert_eq!(rewards.find_coin("uatom".to_string()), coin(2000, "uatom"));
    assert_eq!(rewards.find_coin("ujuno".to_string()), coin(0, "ujuno"));
}

#[test]
fn claim_pays_sorted_positive_and_empties() {
    let mut rewards = three_rewards("1000", "0", "3000");
    let msg = rewards.claim("alice").unwrap();
    assert_eq!(msg.to_address, "alice");
    assert_eq!(msg.amount, vec![coin(1000, "uosmo"), coin(3000, "uqsr")]);
    assert!(rewards.is_empty());
}

#[test]
fn to_bank_send_skips_zero_and_empty() {
    let rewards = CoinList::from_coins(vec![coin(0, "uosmo")]);
    assert!(rewards.to_bank_send("bob".to_string()).is_none());
    let rewards = CoinList::from_coins(vec![coin(0, "uosmo"), coin(3, "uatom")]);
    let send = rewards.to_bank_send("bob".to_string()).unwrap();
    assert_eq!(send.amount, vec![coin(3, "uatom")]);
}

#[test]
fn test_sort_tokens() {
    let tokens = vec![
        coin(100, "uatom"),
        coin(200, "uosmo"),
        coin(300, "uqsr"),
        coin(400, "ueth"),
    ];
    let expected = vec![
        coin(100, "uatom"),
        coin(400, "ueth"),
        coin(200, "uosmo"),
        coin(300, "uqsr"),
    ];
    let sorted_tokens = sort_tokens(tokens);
    assert_eq!(sorted_tokens, expected);
}

#[test]
fn sort_tokens_is_stable_and_bytewise() {
    let tokens: Vec<Coin> = vec![coin(1, "b"), coin(2, "B"), coin(3, "b"), coin(4, "ab"), coin(5, "a")];
    let sorted = sort_tokens(tokens);
    assert_eq!(sorted, vec![coin(2, "B"), coin(5, "a"), coin(4, "ab"), coin(1, "b"), coin(3, "b")]);
}
