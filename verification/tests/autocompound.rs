use quasar_vaults::cl_vault::autocompound::{
    compound_split, execute_migration_step, non_vault_swap_split, select_compound_route, BankIo,
};
use quasar_vaults::cl_vault::coinlist::{Attribute, CoinList, OsmoCoin};
use quasar_vaults::cl_vault::error::ContractError;
use quasar_vaults::cl_vault::state::{MigrationStatus, PoolConfig};
use quasar_vaults::cl_vault::swap::SwapRoute;
use quasar_vaults::coin::coin;

fn osmo(denom: &str, amount: &str) -> OsmoCoin {
    OsmoCoin { denom: denom.to_string(), amount: amount.to_string() }
}

fn users() -> Vec<(String, CoinList)> {
    vec![
        ("alice".to_string(), CoinList::from_coins(vec![coin(10, "uosmo"), coin(5, "uatom")])),
        ("bob".to_string(), CoinList::from_coins(vec![coin(7, "uosmo"), coin(0, "uqsr")])),
        ("carol".to_string(), CoinList::from_coins(vec![coin(1, "uqsr")])),
    ]
}

#[test]
fn migration_pays_a_page() {
    let step = execute_migration_step(MigrationStatus::Open, users(), 2, &"contract".to_string()).unwrap();
    assert_eq!(step.paid, vec!["alice".to_string(), "bob".to_string()]);
    assert_eq!(step.remaining.len(), 1);
    assert_eq!(step.remaining[0].0, "carol");
    assert!(!step.is_last_execution);
    assert_eq!(step.status, MigrationStatus::Open);
    let send = step.send.unwrap();
    assert_eq!(
        send.inputs,
        vec![BankIo { address: "contract".to_string(), coins: vec![osmo("uatom", "5"), osmo("uosmo", "17")] }]
    );
    assert_eq!(
        send.outputs,
        vec![
            BankIo { address: "alice".to_string(), coins: vec![osmo("uatom", "5"), osmo("uosmo", "10")] },
            BankIo { address: "bob".to_string(), coins: vec![osmo("uosmo", "7")] },
        ]
    );
}

#[test]
fn migration_last_page_closes() {
    let step = execute_migration_step(MigrationStatus::Open, users(), 10, &"contract".to_string()).unwrap();
    assert!(step.remaining.is_empty());
    assert!(step.is_last_execution);
    assert_eq!(step.status, MigrationStatus::Closed);
    assert_eq!(step.paid.len(), 3);

    let empty = execute_migration_step(MigrationStatus::Open, vec![], 5, &"contract".to_string()).unwrap();
    assert!(empty.send.is_none());
    assert_eq!(empty.status, MigrationStatus::Closed);

    let nothing = execute_migration_step(MigrationStatus::Open, users(), 0, &"contract".to_string()).unwrap();
    assert!(nothing.send.is_none());
    assert_eq!(nothing.remaining.len(), 3);
    assert_eq!(nothing.status, MigrationStatus::Open);
}

#[test]
fn migration_refused_when_closed() {
    let res = execute_migration_step(MigrationStatus::Closed, users(), 1, &"contract".to_string());
    assert!(matches!(res, Err(ContractError::MigrationStatusClosed)));
}

#[test]
fn compound_halves() {
    assert_eq!(compound_split(11, 4), Ok((3, 4)));
    assert_eq!(compound_split(10, 4), Ok((3, 3)));
    assert_eq!(
        compound_split(4, 4),
        Err(ContractError::InsufficientFundsForSwap { balance: 4, needed: 4 })
    );
    let pool = PoolConfig { pool_id: 1, token0: "a".to_string(), token1: "b".to_string() };
    assert_eq!(non_vault_swap_split(&pool, &"c".to_string(), 9), Ok((4, 5)));
    assert_eq!(non_vault_swap_split(&pool, &"a".to_string(), 9), Err(ContractError::InvalidSwapAssets));
    assert_eq!(non_vault_swap_split(&pool, &"c".to_string(), 0), Err(ContractError::InsufficientFunds));
}

#[test]
fn compound_route_choice() {
    assert_eq!(select_compound_route(true, true, 0, true, 9), Ok(SwapRoute::RecommendedPath));
    assert_eq!(
        select_compound_route(true, false, 0, true, 9),
        Err(ContractError::TryForceRouteWithoutRecommendedSwapRoute)
    );
    assert_eq!(select_compound_route(false, true, 5, true, 5), Ok(SwapRoute::BestPath));
    assert_eq!(select_compound_route(false, true, 6, false, 5), Ok(SwapRoute::RecommendedPath));
}

#[test]
fn coin_list_as_osmo_coins_and_attributes() {
    let list = CoinList::from_coins(vec![coin(3, "uosmo"), coin(0, "uatom"), coin(12, "uqsr")]);
    assert_eq!(list.osmo_coin_from_coin_list(), vec![osmo("uosmo", "3"), osmo("uqsr", "12")]);
    assert_eq!(
        list.into_attributes(),
        vec![
            Attribute { key: "uosmo".to_string(), value: "3".to_string() },
            Attribute { key: "uatom".to_string(), value: "0".to_string() },
            Attribute { key: "uqsr".to_string(), value: "12".to_string() },
        ]
    );
    let mut acc = CoinList::from_coins(vec![coin(1, "uosmo")]);
    acc.update_rewards_coin_list(CoinList::from_coins(vec![coin(2, "uosmo"), coin(4, "uatom")])).unwrap();
    assert_eq!(acc.0, vec![coin(3, "uosmo"), coin(4, "uatom")]);
}

#[test]
fn checked_merge_and_page_totals() {
    let list = CoinList::from_coins(vec![coin(u128::MAX - 1, "a")]);
    assert!(list.checked_merge(&vec![coin(2, "a")]).is_none());
    let merged = list.checked_merge(&vec![coin(1, "a"), coin(3, "b")]).unwrap();
    assert_eq!(merged.0, vec![coin(u128::MAX, "a"), coin(3, "b")]);

    let big = vec![
        ("x".to_string(), CoinList::from_coins(vec![coin(u128::MAX, "a")])),
        ("y".to_string(), CoinList::from_coins(vec![coin(1, "a")])),
    ];
    assert!(quasar_vaults::cl_vault::autocompound::rewards_total_fits(&big, 1));
    assert!(!quasar_vaults::cl_vault::autocompound::rewards_total_fits(&big, 2));
    assert!(quasar_vaults::cl_vault::autocompound::rewards_total_fits(&users(), 10));
}

#[test]
fn migration_pages_one_user_at_a_time() {
    let rewards = vec![coin(1000, "base"), coin(1000, "quote"), coin(1000, "reward")];
    let mut users: Vec<(String, CoinList)> =
        (0..10).map(|i| (format!("user{}", i), CoinList::from_coins(rewards.clone()))).collect();
    let expected: Vec<OsmoCoin> = vec![osmo("base", "1000"), osmo("quote", "1000"), osmo("reward", "1000")];
    for i in 0..10 {
        let step = execute_migration_step(MigrationStatus::Open, users, 1, &"contract".to_string()).unwrap();
        let send = step.send.unwrap();
        assert_eq!(send.outputs, vec![BankIo { address: format!("user{}", i), coins: expected.clone() }]);
        assert_eq!(send.inputs[0].coins, expected);
        if i < 9 {
            assert_eq!(step.status, MigrationStatus::Open);
        } else {
            assert_eq!(step.status, MigrationStatus::Closed);
            assert!(step.is_last_execution);
        }
        users = step.remaining;
    }
    assert!(users.is_empty());
}
