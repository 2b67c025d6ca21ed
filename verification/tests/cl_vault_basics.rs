use quasar_vaults::cl_vault::helpers::refund_bank_msg;
use quasar_vaults::coin::coin;
use quasar_vaults::cl_vault::helpers::round_up_to_nearest_multiple;
use quasar_vaults::cl_vault::query::query_verify_tick_cache;
use quasar_vaults::cl_vault::reply::Replies;
use quasar_vaults::cl_vault::state::PoolConfig;
use quasar_vaults::cl_vault::tick::build_tick_exp_cache;
use std::collections::BTreeMap;

#[test]
fn test_round_up_to_nearest_multiple() {
    assert_eq!(round_up_to_nearest_multiple(2, 10), 0);
    assert_eq!(round_up_to_nearest_multiple(10, 5), 10);
    assert_eq!(round_up_to_nearest_multiple(11, 5), 15);
    assert_eq!(round_up_to_nearest_multiple(12, 5), 15);
    assert_eq!(round_up_to_nearest_multiple(13, 5), 15);
    assert_eq!(round_up_to_nearest_multiple(14, 5), 15);
    assert_eq!(round_up_to_nearest_multiple(15, 5), 15);
    assert_eq!(round_up_to_nearest_multiple(16, 5), 20);
    assert_eq!(round_up_to_nearest_multiple(17, 5), 20);
    assert_eq!(round_up_to_nearest_multiple(18, 5), 20);
    assert_eq!(round_up_to_nearest_multiple(19, 5), 20);
    assert_eq!(round_up_to_nearest_multiple(20, 5), 20);
    // does it also work for negative inputs?
    assert_eq!(round_up_to_nearest_multiple(-2, 10), 0);
    assert_eq!(round_up_to_nearest_multiple(-10, 5), -10);
    assert_eq!(round_up_to_nearest_multiple(-11, 5), -10);
    assert_eq!(round_up_to_nearest_multiple(-12, 5), -10);
    assert_eq!(round_up_to_nearest_multiple(-13, 5), -10);
    assert_eq!(round_up_to_nearest_multiple(-14, 5), -10);
    assert_eq!(round_up_to_nearest_multiple(-15, 5), -15);
    assert_eq!(round_up_to_nearest_multiple(-16, 5), -15);
    assert_eq!(round_up_to_nearest_multiple(-17, 5), -15);
    assert_eq!(round_up_to_nearest_multiple(-18, 5), -15);
    assert_eq!(round_up_to_nearest_multiple(-19, 5), -15);
    assert_eq!(round_up_to_nearest_multiple(-20, 5), -20);
}

#[test]
fn round_up_with_negative_multiple_follows_rust_remainder() {
    // 7 % -5 == 2, so 7 moves by -5 - 2
    assert_eq!(round_up_to_nearest_multiple(7, -5), 0);
    assert_eq!(round_up_to_nearest_multiple(-7, -5), -5);
    assert_eq!(round_up_to_nearest_multiple(-20, -5), -20);
}

#[test]
fn test_pool_contains_token() {
    let pool_config = PoolConfig {
        pool_id: 1,
        token0: "token1".to_string(),
        token1: "token2".to_string(),
    };

    assert!(pool_config.pool_contains_token("token1"));
    assert!(pool_config.pool_contains_token("token2"));
    assert!(!pool_config.pool_contains_token("token3"));
}

#[test]
fn query_verify_tick_cache_reports_missing_key() {
    let mut cache = BTreeMap::new();
    build_tick_exp_cache(&mut cache).unwrap();
    assert_eq!(query_verify_tick_cache(&cache).unwrap().result, Ok(()));
    cache.remove(&3);
    assert_eq!(query_verify_tick_cache(&cache).unwrap().result, Err(3));
    let empty = BTreeMap::new();
    assert_eq!(query_verify_tick_cache(&empty).unwrap().result, Err(0));
}

#[test]
fn replies_number_roundtrip() {
    assert_eq!(Replies::from_u64(1), Replies::InstantiateCreatePosition);
    assert_eq!(Replies::from_u64(8), Replies::Merge);
    assert_eq!(Replies::from_u64(14), Replies::AnyDepositSwap);
    assert_eq!(Replies::from_u64(0), Replies::Unknown);
    assert_eq!(Replies::from_u64(99), Replies::Unknown);
    for id in 1..=15u64 {
        assert_eq!(Replies::from_u64(id).to_u64(), id);
    }
}

#[test]
fn round_up_keeps_order() {
    let samples = [-31i64, -30, -29, -21, -20, -19, -11, -10, -9, -1, 0, 1, 9, 10, 11, 19, 20, 21];
    for w in samples.windows(2) {
        assert!(round_up_to_nearest_multiple(w[0], 10) <= round_up_to_nearest_multiple(w[1], 10));
    }
}

#[test]
fn refund_message_names_each_refund() {
    let (send, attrs) = refund_bank_msg("user".to_string(), Some(coin(5, "a")), Some(coin(7, "b"))).unwrap().unwrap();
    assert_eq!(send.to_address, "user");
    assert_eq!(send.amount, vec![coin(5, "a"), coin(7, "b")]);
    assert_eq!(
        attrs,
        vec![
            ("refund0_amount".to_string(), "5".to_string()),
            ("refund0_denom".to_string(), "a".to_string()),
            ("refund1_amount".to_string(), "7".to_string()),
            ("refund1_denom".to_string(), "b".to_string()),
        ]
    );
    let (send, attrs) = refund_bank_msg("user".to_string(), Some(coin(0, "a")), Some(coin(7, "b"))).unwrap().unwrap();
    assert_eq!(send.amount, vec![coin(7, "b")]);
    assert_eq!(attrs, vec![("refund1_amount".to_string(), "7".to_string()), ("refund1_denom".to_string(), "b".to_string())]);
    assert_eq!(refund_bank_msg("user".to_string(), None, Some(coin(0, "b"))).unwrap(), None);
}
