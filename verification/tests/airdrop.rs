use quasar_vaults::airdrop::error::AirdropErrors;
use quasar_vaults::airdrop::helpers::{
    check_amounts_and_airdrop_size, next_reply_id, validate_amount, validate_update_config,
};
use quasar_vaults::airdrop::state::{AirdropConfig, AssetInfo, UserInfo, UserTable};
use quasar_vaults::airdrop::users::{
    add_users, check_claim, check_withdraw, remove_users, sanity_check, set_users,
    update_airdrop_config, users_stats,
};
use quasar_vaults::cl_vault::error::StdError;

fn config(amount: u128, start: u64, end: u64) -> AirdropConfig {
    AirdropConfig {
        airdrop_description: "airdrop".to_string(),
        airdrop_amount: amount,
        airdrop_asset: AssetInfo::Native("uqsr".to_string()),
        total_claimed: 0,
        start_height: start,
        end_height: end,
    }
}

fn generic(e: AirdropErrors) -> String {
    match e {
        AirdropErrors::Std(StdError::GenericErr { msg }) => msg,
        other => panic!("not a generic error: {other:?}"),
    }
}

#[test]
fn test_get_total_in_user_info() {
    let mut table = UserTable::new();
    table.set("user1".to_string(), UserInfo { claimable_amount: 100, claimed_flag: false });
    table.set("user2".to_string(), UserInfo { claimable_amount: 200, claimed_flag: false });
    assert_eq!(table.total_unclaimed(), 300);
    table.set("user3".to_string(), UserInfo { claimable_amount: 50, claimed_flag: true });
    assert_eq!(table.total_unclaimed(), 300);
}

#[test]
fn user_table_reads_back_writes() {
    let mut table = UserTable::new();
    let u = "user1".to_string();
    assert_eq!(table.get(&u), None);
    table.set(u.clone(), UserInfo { claimable_amount: 7, claimed_flag: false });
    assert_eq!(table.get(&u), Some(UserInfo { claimable_amount: 7, claimed_flag: false }));
    table.set(u.clone(), UserInfo { claimable_amount: 9, claimed_flag: false });
    assert_eq!(table.get(&u).unwrap().claimable_amount, 9);
    assert_eq!(table.entries().len(), 1);
    table.remove(&u);
    assert_eq!(table.get(&u), None);
}

#[test]
fn amount_checks_and_messages() {
    assert!(check_amounts_and_airdrop_size(10, 10).is_ok());
    assert_eq!(
        generic(check_amounts_and_airdrop_size(11, 10).unwrap_err()),
        "Total amount in the given user amounts 11 is greater than 10"
    );
    assert!(validate_amount(1, 3).is_ok());
    assert_eq!(generic(validate_amount(0, 3).unwrap_err()), "Amount at index :3is zero");
}

#[test]
fn update_config_rules() {
    let c = config(100, 10, 20);
    assert!(validate_update_config(&c, 100, 5, 100).is_ok());
    assert_eq!(
        generic(validate_update_config(&c, 100, 10, 100).unwrap_err()),
        "Failed as the heights given do not satisfy the conditions"
    );
    assert_eq!(
        generic(validate_update_config(&c, 101, 5, 100).unwrap_err()),
        "Failed due to config has less amount than the amount allowed to the users to claim"
    );
    assert_eq!(
        generic(validate_update_config(&c, 100, 5, 99).unwrap_err()),
        "Failed due to insufficient balance in the contract account. Balance : 99"
    );
    let mut claimed = config(100, 0, 0);
    claimed.total_claimed = 1;
    assert_eq!(generic(validate_update_config(&claimed, 0, 0, 0).unwrap_err()), "Failed as total claimed is non zero");
    assert!(validate_update_config(&config(100, 0, 0), 1000, 50, 0).is_ok());
    let current = config(100, 10, 20);
    assert_eq!(
        generic(update_airdrop_config(&current, config(100, 30, 40), 21, 0, 100).unwrap_err()),
        "Failed to execute update as it is post airdrop ending"
    );
    assert_eq!(update_airdrop_config(&current, config(100, 30, 40), 20, 0, 100).unwrap(), config(100, 30, 40));
}

#[test]
fn add_set_remove_users() {
    let open = config(300, 0, 0);
    let table = add_users(&open, UserTable::new(), vec!["a".to_string(), "b".to_string()], vec![100, 200]).unwrap();
    assert_eq!(table.total_unclaimed(), 300);
    // adding an existing user with an allocation is refused
    let err = add_users(&open, table.clone(), vec!["a".to_string()], vec![1]).unwrap_err();
    assert_eq!(err, AirdropErrors::AlreadyExists { user: "a".to_string() });
    // the users may not claim more than the airdrop amount
    let err = add_users(&open, table.clone(), vec!["c".to_string()], vec![1]).unwrap_err();
    assert_eq!(generic(err), "Total amount in the given user amounts 301 is greater than 300");
    // set lowers an allocation
    let table = set_users(&open, table, vec!["b".to_string()], vec![50]).unwrap();
    assert_eq!(table.get(&"b".to_string()).unwrap().claimable_amount, 50);
    assert!(matches!(
        set_users(&open, table.clone(), vec!["z".to_string()], vec![5]).unwrap_err(),
        AirdropErrors::Std(StdError::NotFound { .. })
    ));
    let table = remove_users(&open, table, vec!["a".to_string()]).unwrap();
    assert_eq!(table.get(&"a".to_string()), None);
    assert_eq!(table.total_unclaimed(), 50);
    assert_eq!(users_stats(&table), (0, 1, 1));
    // nothing changes once the window is set
    let active = config(300, 10, 20);
    assert_eq!(remove_users(&active, table.clone(), vec![]).unwrap_err(), AirdropErrors::InvalidChangeUserInfo);
    assert_eq!(
        generic(add_users(&open, table, vec!["x".to_string()], vec![]).unwrap_err()),
        "Deposit amount weight for primitive is zero"
    );
}

#[test]
fn claims_and_withdrawals() {
    let c = config(300, 10, 20);
    let user = UserInfo { claimable_amount: 100, claimed_flag: false };
    assert!(check_claim(&c, 15, Some(user), 100).is_ok());
    assert_eq!(check_claim(&c, 9, Some(user), 100).unwrap_err(), AirdropErrors::InvalidClaim);
    assert_eq!(check_claim(&c, 21, Some(user), 100).unwrap_err(), AirdropErrors::InvalidClaim);
    assert_eq!(
        check_claim(&c, 15, Some(UserInfo { claimable_amount: 1, claimed_flag: true }), 100).unwrap_err(),
        AirdropErrors::AlreadyClaimed
    );
    assert_eq!(
        check_claim(&c, 15, Some(user), 99).unwrap_err(),
        AirdropErrors::InsufficientFundsInContractAccount { balance: 99 }
    );
    assert!(check_claim(&c, 15, None, 99).is_err());
    assert_eq!(check_withdraw(&c, 19).unwrap_err(), AirdropErrors::InvalidWithdraw);
    assert!(check_withdraw(&c, 20).is_ok());
    assert_eq!(check_withdraw(&config(300, 0, 0), 100).unwrap_err(), AirdropErrors::InvalidWithdraw);
    assert!(sanity_check(&c, 300, 300));
    assert!(!sanity_check(&c, 301, 300));
    assert!(!sanity_check(&c, 300, 299));
    assert_eq!(next_reply_id(None), 0);
    assert_eq!(next_reply_id(Some(4)), 5);
}

#[test]
fn config_getters() {
    let c = config(1, 3, 9);
    assert_eq!(c.get_start_height(), 3);
    assert_eq!(c.get_end_heights(), 3);
    assert_eq!(c.clone().get_config(), c);
    let u = UserInfo::default();
    assert_eq!(u.get_claimable_amount(), 0);
    assert!(!u.get_claimed_flag());
}

#[test]
fn instantiate_needs_an_unset_window() {
    assert_eq!(quasar_vaults::airdrop::users::check_instantiate_config(&config(100, 0, 0)), Ok(()));
    assert_eq!(quasar_vaults::airdrop::users::check_instantiate_config(&config(100, 5, 0)), Err(AirdropErrors::InvalidAirdropWindow));
    assert_eq!(quasar_vaults::airdrop::users::check_instantiate_config(&config(100, 0, 9)), Err(AirdropErrors::InvalidAirdropWindow));
    let mut claimed = config(100, 0, 0);
    claimed.total_claimed = 1;
    assert_eq!(quasar_vaults::airdrop::users::check_instantiate_config(&claimed), Err(AirdropErrors::InvalidAirdropWindow));
}
