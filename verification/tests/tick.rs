use std::collections::BTreeMap;
use std::str::FromStr;

use quasar_vaults::cl_vault::error::ContractError;
use quasar_vaults::cl_vault::state::TickExpIndexData;
use quasar_vaults::cl_vault::tick::{
    build_tick_exp_cache, price_to_tick, tick_to_price, verify_tick_exp_cache, MAX_TICK,
    MIN_INITIALIZED_TICK,
};
use quasar_vaults::math::decimal::Decimal256;
use quasar_vaults::math::uint::Uint256;

const MAX_SPOT_PRICE: &str = "100000000000000000000000000000000000000";
const MIN_SPOT_PRICE: &str = "0.000000000001";

fn dec256(s: &str) -> Decimal256 {
    let a = cosmwasm_std::Decimal256::from_str(s).unwrap().atomics().to_be_bytes();
    Decimal256::new(Uint256 {
        hi: u128::from_be_bytes(a[..16].try_into().unwrap()),
        lo: u128::from_be_bytes(a[16..].try_into().unwrap()),
    })
}

fn built_cache() -> BTreeMap<i64, TickExpIndexData> {
    let mut cache = BTreeMap::new();
    build_tick_exp_cache(&mut cache).unwrap();
    cache
}

#[test]
fn test_verify_tick_cache() {
    let cache = built_cache();
    verify_tick_exp_cache(&cache).unwrap();
}

#[test]
fn test_verify_tick_cache_finds_missing_positive_ticks() {
    let mut cache = built_cache();
    cache.remove(&5);
    let err = verify_tick_exp_cache(&cache).unwrap_err();
    assert_eq!(err, ContractError::TickNotFound { tick: 5 })
}

#[test]
fn test_verify_tick_cache_finds_missing_last_positive_ticks() {
    let mut cache = built_cache();
    let tick = *cache.keys().last().unwrap();
    cache.remove(&tick);
    let err = verify_tick_exp_cache(&cache).unwrap_err();
    assert_eq!(err, ContractError::TickNotFound { tick })
}

#[test]
fn test_verify_tick_cache_finds_missing_last_negative_ticks() {
    let mut cache = built_cache();
    let tick = *cache.keys().next().unwrap();
    cache.remove(&tick);
    let err = verify_tick_exp_cache(&cache).unwrap_err();
    assert_eq!(err, ContractError::TickNotFound { tick })
}

#[test]
fn test_verify_tick_cache_finds_missing_negative_ticks() {
    let mut cache = built_cache();
    cache.remove(&-5);
    let err = verify_tick_exp_cache(&cache).unwrap_err();
    assert_eq!(err, ContractError::TickNotFound { tick: -5 })
}

#[test]
fn test_test_tube_tick_to_price() {
    let cache = built_cache();
    let tick_index = 27445000_i128;
    let price = tick_to_price(tick_index.try_into().unwrap()).unwrap();
    let tick = price_to_tick(&cache, price).unwrap();
    assert_eq!(tick_index, tick)
}

#[test]
fn test_tick_to_price() {
    let cases: Vec<(i64, &str)> = vec![
        (38035200, "30352"),
        (38035300, "30353"),
        (-44821000, "0.000011790"),
        (-44820900, "0.000011791"),
        (-12104000, "0.068960"),
        (-12103900, "0.068961"),
        (MAX_TICK as i64 - 100, "99999000000000000000000000000000000000"),
        (MAX_TICK as i64, MAX_SPOT_PRICE),
        (-20594000, "0.007406"),
        (-20593900, "0.0074061"),
        (-29204000, "0.00077960"),
        (-29203900, "0.00077961"),
        (-12150000, "0.068500"),
        (-12149900, "0.068501"),
        (64576000, "25760000"),
        (64576100, "25761000"),
        (0, "1"),
    ];
    for (tick, expected) in cases {
        assert_eq!(tick_to_price(tick).unwrap(), dec256(expected), "tick {}", tick);
    }
    assert!(tick_to_price(MAX_TICK as i64 + 1).is_err());
    assert!(tick_to_price(MIN_INITIALIZED_TICK - 1).is_err());
}

#[test]
fn test_price_to_tick() {
    let cache = built_cache();
    let cases: Vec<(&str, i128)> = vec![
        ("30352", 38035200),
        ("30353", 38035300),
        ("0.000011790", -44821000),
        ("0.000011791", -44820900),
        ("0.068960", -12104000),
        ("0.068961", -12103900),
        ("99999000000000000000000000000000000000", MAX_TICK - 100),
        (MAX_SPOT_PRICE, MAX_TICK),
        ("0.007406", -20594000),
        ("0.0074061", -20593900),
        ("0.00077960", -29204000),
        ("0.00077961", -29203900),
        ("0.068500", -12150000),
        ("0.068501", -12149900),
        ("25760000", 64576000),
        ("25761000", 64576100),
        ("1", 0),
        ("4.169478164938714112", 3169478),
        ("2.101924006248355072", 1101924),
        ("0.007406", -20594000),
    ];
    for (price, expected) in cases {
        assert_eq!(price_to_tick(&cache, dec256(price)).unwrap(), expected, "price {}", price);
    }
    let too_high = cosmwasm_std::Decimal256::from_str(MAX_SPOT_PRICE).unwrap() + cosmwasm_std::Decimal256::one();
    assert!(price_to_tick(&cache, dec256(&too_high.to_string())).is_err());
    let too_low = cosmwasm_std::Decimal256::from_str(MIN_SPOT_PRICE).unwrap()
        / cosmwasm_std::Decimal256::from_str("10").unwrap();
    assert!(price_to_tick(&cache, dec256(&too_low.to_string())).is_err());
}

#[test]
fn tick_price_roundtrip_on_sample_ticks() {
    let cache = built_cache();
    for tick in [-108000000i64, -107999999, -9000001, -9000000, -1, 1, 8999999, 9000000, 341999999, 342000000] {
        let price = tick_to_price(tick).unwrap();
        assert_eq!(price_to_tick(&cache, price).unwrap(), tick as i128);
    }
}

#[test]
fn tick_prices_increase_across_ranges() {
    let ticks = [-108000000i64, -107999999, -9000001, -9000000, -8999999, -1, 0, 1, 8999999, 9000000, 9000001, 342000000];
    for w in ticks.windows(2) {
        assert!(tick_to_price(w[0]).unwrap().lt(&tick_to_price(w[1]).unwrap()), "ticks {} {}", w[0], w[1]);
    }
}

#[test]
fn price_to_tick_is_greatest_tick_below() {
    let cache = built_cache();
    for price in ["1.0000005", "30352.5", "0.0000117905", "2.5", "0.5"] {
        let t = price_to_tick(&cache, dec256(price)).unwrap() as i64;
        let p = dec256(price);
        assert!(!p.lt(&tick_to_price(t).unwrap()), "price {}", price);
        assert!(p.lt(&tick_to_price(t + 1).unwrap()), "price {}", price);
    }
}

#[test]
fn price_to_tick_refuses_out_of_bounds_without_a_cache() {
    let empty: BTreeMap<i64, TickExpIndexData> = BTreeMap::new();
    let too_high = dec256("100000000000000000000000000000000000001");
    assert_eq!(price_to_tick(&empty, too_high), Err(ContractError::PriceBoundError { price: too_high }));
    let too_low = dec256("0.0000000000001");
    assert_eq!(price_to_tick(&empty, too_low), Err(ContractError::PriceBoundError { price: too_low }));
}

#[test]
fn cache_check_reports_first_missing_key_down() {
    let mut cache = built_cache();
    cache.remove(&-5);
    cache.remove(&-9);
    assert_eq!(verify_tick_exp_cache(&cache), Err(ContractError::TickNotFound { tick: -5 }));
    let mut cache = built_cache();
    cache.remove(&0);
    assert_eq!(verify_tick_exp_cache(&cache), Err(ContractError::TickNotFound { tick: 0 }));
}
