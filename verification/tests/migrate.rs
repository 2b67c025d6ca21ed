use quasar_vaults::cl_vault::coinlist::CoinList;
use quasar_vaults::cl_vault::migrate::plan_migrate;
use quasar_vaults::cl_vault::state::OldPosition;
use quasar_vaults::coin::coin;

#[test]
fn migration_keeps_the_position() {
    let plan = plan_migrate(&CoinList::new(), "treasury".to_string(), OldPosition { position_id: 1 }, 0);
    assert_eq!(plan.position.position_id, 1);
    assert_eq!(plan.position.join_time, 0);
    assert!(plan.position.claim_after.is_none());
    assert!(plan.send.is_none());
    let later = plan_migrate(&CoinList::new(), "treasury".to_string(), OldPosition { position_id: 3 }, -1700);
    assert_eq!(later.position.join_time, 1700);
    let far = plan_migrate(&CoinList::new(), "t".to_string(), OldPosition { position_id: 3 }, i64::MIN);
    assert_eq!(far.position.join_time, 1u64 << 63);
}

#[test]
fn migration_pays_strategist_rewards() {
    let rewards = CoinList::from_coins(vec![coin(1000, "uquote"), coin(1000, "ubase"), coin(0, "ureward")]);
    let plan = plan_migrate(&rewards, "treasury".to_string(), OldPosition { position_id: 1 }, 5);
    let send = plan.send.unwrap();
    assert_eq!(send.to_address, "treasury");
    assert_eq!(send.amount, vec![coin(1000, "ubase"), coin(1000, "uquote")]);
}
