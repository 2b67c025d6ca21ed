use quasar_vaults::cl_vault::allocation::{
    allocate_from_ratios, allocate_funds_per_position, check_allocation_defined,
    get_min_ratio_per_position, RangedPosition,
};
use quasar_vaults::cl_vault::error::ContractError;
use quasar_vaults::cl_vault::helpers::{PositionRatio, WeightedPosition};
use quasar_vaults::math::decimal::Decimal;
use quasar_vaults::math::uint::{OverflowError, OverflowOperation};

fn wp(id: u64, ratio: u128) -> WeightedPosition {
    WeightedPosition { position_id: id, ratio }
}

fn ranged(id: u64, ratio: u128, lower_tick: i64, upper_tick: i64) -> RangedPosition {
    RangedPosition { position: wp(id, ratio), lower_tick, upper_tick }
}

#[test]
fn allocate_from_ratios_splits_by_smaller_part() {
    let ps = vec![
        (wp(1, 1), PositionRatio::new(100, 200)),
        (wp(2, 1), PositionRatio::new(300, 200)),
    ];
    let res = allocate_from_ratios(ps, 1000, 3000).unwrap();
    assert_eq!(res, vec![(wp(1, 1), 333, 999), (wp(2, 1), 666, 1999)]);
    let total0: u128 = res.iter().map(|r| r.1).sum();
    let total1: u128 = res.iter().map(|r| r.2).sum();
    assert!(total0 <= 1000);
    assert!(total1 <= 3000);
}

#[test]
fn allocate_from_ratios_overflowing_totals() {
    let ps = vec![
        (wp(1, 1), PositionRatio::new(u128::MAX, 1)),
        (wp(2, 1), PositionRatio::new(1, 1)),
    ];
    let res = allocate_from_ratios(ps, 10, 10);
    assert_eq!(
        res,
        Err(ContractError::OverflowError(OverflowError { operation: OverflowOperation::Add }))
    );
}

#[test]
fn allocate_from_ratios_without_positions() {
    assert_eq!(allocate_from_ratios(vec![], 10, 10), Ok(vec![]));
}

#[test]
fn allocation_undefined_on_zero_parts() {
    let opposite = vec![
        (wp(1, 1), PositionRatio::new(100, 0)),
        (wp(2, 1), PositionRatio::new(0, 100)),
    ];
    assert!(!check_allocation_defined(&opposite));
    let no_token0 = vec![(wp(1, 1), PositionRatio::new(0, 5))];
    assert!(!check_allocation_defined(&no_token0));
    assert!(check_allocation_defined(&vec![]));
    assert!(check_allocation_defined(&vec![(wp(1, 1), PositionRatio::new(3, 5))]));
}

#[test]
fn min_ratio_tick_errors_in_order() {
    let spot = Decimal::one();
    let res = get_min_ratio_per_position(vec![ranged(1, 1, -200_000_000, 400_000_000)], spot);
    assert_eq!(res, Err(ContractError::TickIndexMaxError));
    let res = get_min_ratio_per_position(vec![ranged(1, 1, -200_000_000, 100)], spot);
    assert_eq!(res, Err(ContractError::TickIndexMinError));
    let res = get_min_ratio_per_position(
        vec![ranged(1, 1, -100, 100), ranged(2, 1, -100, 400_000_000)],
        spot,
    );
    assert_eq!(res, Err(ContractError::TickIndexMaxError));
}

#[test]
fn min_ratio_scaled_by_share() {
    let spot = Decimal::one();
    let single = get_min_ratio_per_position(vec![ranged(0, 50, -100, 100)], spot).unwrap();
    assert_eq!(single.len(), 1);
    assert!(single[0].1.asset0 > 0);
    assert!(single[0].1.asset1 > 0);
    let halves = get_min_ratio_per_position(
        vec![ranged(0, 50, -100, 100), ranged(1, 50, -100, 100)],
        spot,
    )
    .unwrap();
    assert_eq!(halves.len(), 2);
    assert_eq!(halves[0].0, wp(0, 50));
    assert_eq!(halves[1].0, wp(1, 50));
    assert_eq!(halves[0].1.asset0, single[0].1.asset0 / 2);
    assert_eq!(halves[1].1.asset1, single[0].1.asset1 / 2);
}

#[test]
fn allocate_funds_over_equal_positions() {
    let spot = Decimal::one();
    let res = allocate_funds_per_position(
        vec![ranged(0, 50, -100, 100), ranged(1, 50, -100, 100)],
        spot,
        1000,
        2000,
    );
    let split = res.unwrap().unwrap();
    assert_eq!(split, vec![(wp(0, 50), 500, 1000), (wp(1, 50), 500, 1000)]);
}

#[test]
fn allocate_funds_reports_tick_error() {
    let res = allocate_funds_per_position(vec![ranged(0, 1, -100, 400_000_000)], Decimal::one(), 1, 1);
    assert_eq!(res, Some(Err(ContractError::TickIndexMaxError)));
}
