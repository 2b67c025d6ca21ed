use vstd::prelude::*;
use crate::cl_vault::error::ContractError;
use crate::cl_vault::helpers::{external_ratio, get_final_ratio, total_share, PositionRatio, WeightedPosition};
use crate::cl_vault::liquidity::{asset0, asset1, hi_of, lo_of};
use crate::cl_vault::tick::{spec_tick_to_price, tick_to_price, valid_tick, MAX_TICK, MIN_INITIALIZED_TICK};
use crate::math::decimal::{dec_frac, decimal256_sqrt_atomics, decimal_sqrt_atomics, Decimal};
use crate::math::uint::{pow2_128, pow2_256, u128_multiply_ratio, OverflowError, OverflowOperation};

verus! {

/// A position of the vault: its share and the ticks that bound its range.
#[derive(Debug, Clone, Copy, PartialEq, Eq, Structural)]
pub struct RangedPosition {
    pub position: WeightedPosition,
    pub lower_tick: i64,
    pub upper_tick: i64,
}

/// The liquidity with which each position is probed: 100,000, in atomic units.
pub open spec fn probe_liquidity() -> int {
    100_000_000_000_000_000_000_000
}

/// The error that the price of a tick gives, if any.
pub open spec fn tick_error(t: int) -> Option<ContractError> {
    if t != 0 && t < MIN_INITIALIZED_TICK {
        Some(ContractError::TickIndexMinError)
    } else if t > MAX_TICK {
        Some(ContractError::TickIndexMaxError)
    } else {
        None
    }
}

/// The first tick error met walking the positions in order, each upper tick
/// before its lower tick.
pub open spec fn first_tick_error(ps: Seq<RangedPosition>) -> Option<ContractError>
    decreases ps.len(),
{
    if ps.len() == 0 {
        None
    } else {
        match tick_error(ps[0].upper_tick as int) {
            Some(e) => Some(e),
            None => match tick_error(ps[0].lower_tick as int) {
                Some(e) => Some(e),
                None => first_tick_error(ps.drop_first()),
            },
        }
    }
}

/// The sum of the positions' shares.
pub open spec fn total_weight(ps: Seq<RangedPosition>) -> int
    decreases ps.len(),
{
    if ps.len() == 0 { 0 } else { total_weight(ps.drop_last()) + ps.last().position.ratio }
}

/// Token0 that `l` liquidity holds between two square-root prices, or zero
/// where that computation fails.
pub open spec fn asset0_or_zero(l: int, a: int, b: int) -> u128 {
    let (lo, hi) = (lo_of(a, b), hi_of(a, b));
    if hi == lo || lo * hi >= pow2_256() || l * (hi - lo) >= pow2_256() || lo * hi == 0
        || l * (hi - lo) / (lo * hi) >= pow2_128() {
        0
    } else {
        (l * (hi - lo) / (lo * hi)) as u128
    }
}

/// Token1 that `l` liquidity holds between two square-root prices, or zero
/// where that computation fails.
pub open spec fn asset1_or_zero(l: int, a: int, b: int) -> u128 {
    let (lo, hi) = (lo_of(a, b), hi_of(a, b));
    if hi == lo || l / (hi - lo) >= pow2_128() {
        0
    } else {
        (l / (hi - lo)) as u128
    }
}

/// The tokens that the probe liquidity holds in a position at the spot
/// price: token0 between the spot and the upper price, token1 between the
/// lower price and the spot, on square roots.
pub open spec fn probe_ratio(p: RangedPosition, spot: int) -> PositionRatio {
    let upper = decimal256_sqrt_atomics(spec_tick_to_price(p.upper_tick as int));
    let lower = decimal256_sqrt_atomics(spec_tick_to_price(p.lower_tick as int));
    let s = decimal_sqrt_atomics(spot);
    PositionRatio {
        asset0: asset0_or_zero(probe_liquidity(), s, upper),
        asset1: asset1_or_zero(probe_liquidity(), lower, s),
    }
}

/// For each position, its probe ratio scaled by its share of the vault
/// (see `get_min_ratio_per_position`).
pub open spec fn min_ratio_seq(ps: Seq<RangedPosition>, spot: int) -> Seq<(WeightedPosition, PositionRatio)> {
    Seq::new(ps.len(), |i: int| {
        let pr = probe_ratio(ps[i], spot);
        let e = external_ratio(ps[i].position, total_weight(ps));
        (ps[i].position, PositionRatio {
            asset0: (pr.asset0 * e / dec_frac()) as u128,
            asset1: (pr.asset1 * e / dec_frac()) as u128,
        })
    })
}

proof fn lemma_total_share_weight(mid: Seq<(WeightedPosition, PositionRatio)>, ps: Seq<RangedPosition>)
    requires
        mid.len() == ps.len(),
        forall|j: int| 0 <= j < ps.len() ==> (#[trigger] mid[j]).0 == ps[j].position,
    ensures
        total_share(mid) == total_weight(ps),
    decreases ps.len(),
{
    if ps.len() > 0 {
        lemma_total_share_weight(mid.drop_last(), ps.drop_last());
        assert(mid.last().0 == ps.last().position);
    }
}

/// The price of a tick, with the error that the tick gives.
fn tick_price_checked(t: i64) -> (r: Result<crate::math::decimal::Decimal256, ContractError>)
    ensures
        match tick_error(t as int) {
            Some(e) => r == Err::<crate::math::decimal::Decimal256, ContractError>(e),
            None => r matches Ok(p) && p@ == spec_tick_to_price(t as int),
        },
{
    let r = tick_to_price(t);
    proof {
        if tick_error(t as int) is None && t != 0 {
            assert(valid_tick(t as int));
        }
    }
    r
}

/// For each position, the tokens the probe liquidity holds in it at the spot
/// price, scaled by the position's share of the vault. The first tick whose
/// price fails gives the error; CosmWasm panics when the shares overflow or
/// are all zero, which `requires` excludes.
pub fn get_min_ratio_per_position(positions: Vec<RangedPosition>, spot_price: Decimal)
    -> (r: Result<Vec<(WeightedPosition, PositionRatio)>, ContractError>)
    requires
        first_tick_error(positions@) is None ==> total_weight(positions@) < pow2_128()
            && (positions@.len() > 0 ==> total_weight(positions@) > 0),
    ensures
        match first_tick_error(positions@) {
            Some(e) => r == Err::<Vec<(WeightedPosition, PositionRatio)>, ContractError>(e),
            None => r matches Ok(v) && v@ == min_ratio_seq(positions@, spot_price@),
        },
{
    let ghost ps = positions@;
    let liquidity = Decimal::new(100_000_000_000_000_000_000_000u128).to_decimal256();
    let spot_sqrt = spot_price.sqrt().to_decimal256();
    let n = positions.len();
    let mut mid: Vec<(WeightedPosition, PositionRatio)> = Vec::new();
    let mut i: usize = 0;
    assert(ps.subrange(0, n as int) =~= ps);
    while i < n
        invariant
            n == ps.len(),
            ps == positions@,
            i <= n,
            liquidity@ == probe_liquidity(),
            spot_sqrt@ == decimal_sqrt_atomics(spot_price@),
            first_tick_error(ps) == first_tick_error(ps.subrange(i as int, n as int)),
            mid@.len() == i,
            forall|j: int| 0 <= j < i ==> (#[trigger] mid@[j]).0 == ps[j].position
                && mid@[j].1 == probe_ratio(ps[j], spot_price@),
        decreases n - i,
    {
        let p = positions[i];
        proof {
            let t = ps.subrange(i as int, n as int);
            assert(t[0] == p);
            assert(t.drop_first() =~= ps.subrange(i + 1, n as int));
        }
        let upper = match tick_price_checked(p.upper_tick) {
            Ok(v) => v,
            Err(e) => { return Err(e); },
        };
        let lower = match tick_price_checked(p.lower_tick) {
            Ok(v) => v,
            Err(e) => { return Err(e); },
        };
        let upper_sqrt = upper.sqrt();
        let lower_sqrt = lower.sqrt();
        let amount0 = match asset0(liquidity, spot_sqrt, upper_sqrt) {
            Ok(v) => v,
            Err(_) => 0,
        };
        let amount1 = match asset1(liquidity, lower_sqrt, spot_sqrt) {
            Ok(v) => v,
            Err(_) => 0,
        };
        mid.push((p.position, PositionRatio::new(amount0, amount1)));
        i = i + 1;
    }
    proof {
        assert(ps.subrange(n as int, n as int).len() == 0);
        lemma_total_share_weight(mid@, ps);
    }
    let ghost m = mid@;
    let r = get_final_ratio(mid);
    proof {
        assert forall|i: int| 0 <= i < ps.len() implies #[trigger] r->Ok_0@[i] == min_ratio_seq(ps, spot_price@)[i] by {
            assert(m[i].0 == ps[i].position && m[i].1 == probe_ratio(ps[i], spot_price@));
        }
        assert(r->Ok_0@ =~= min_ratio_seq(ps, spot_price@));
    }
    r
}

/// The sum of the positions' token0 amounts.
pub open spec fn sum_asset0(ps: Seq<(WeightedPosition, PositionRatio)>) -> int
    decreases ps.len(),
{
    if ps.len() == 0 { 0 } else { sum_asset0(ps.drop_last()) + ps.last().1.asset0 }
}

/// The sum of the positions' token1 amounts.
pub open spec fn sum_asset1(ps: Seq<(WeightedPosition, PositionRatio)>) -> int
    decreases ps.len(),
{
    if ps.len() == 0 { 0 } else { sum_asset1(ps.drop_last()) + ps.last().1.asset1 }
}

/// The smaller of a position's two parts of the totals, as decimals (atomic
/// units), each rounded down.
pub open spec fn min_share(pr: PositionRatio, total0: int, total1: int) -> int {
    let r0 = pr.asset0 * dec_frac() / total0;
    let r1 = pr.asset1 * dec_frac() / total1;
    if r0 <= r1 { r0 } else { r1 }
}

/// The sum of the positions' smaller parts.
pub open spec fn sum_min_shares(ps: Seq<(WeightedPosition, PositionRatio)>, total0: int, total1: int) -> int
    decreases ps.len(),
{
    if ps.len() == 0 { 0 } else { sum_min_shares(ps.drop_last(), total0, total1) + min_share(ps.last().1, total0, total1) }
}

/// The part of `amount` that a share out of `total` gets: the share is first
/// normalised to a decimal (rounded down), then applied (rounded down).
pub open spec fn allocated(amount: int, share: int, total: int) -> int {
    amount * (share * dec_frac() / total) / dec_frac()
}

proof fn lemma_sums_prefix(ps: Seq<(WeightedPosition, PositionRatio)>, k: int)
    requires
        0 <= k <= ps.len(),
    ensures
        0 <= sum_asset0(ps.subrange(0, k)) <= sum_asset0(ps),
        0 <= sum_asset1(ps.subrange(0, k)) <= sum_asset1(ps),
    decreases ps.len() - k,
{
    if k < ps.len() {
        lemma_sums_prefix(ps, k + 1);
        assert(ps.subrange(0, k + 1).drop_last() =~= ps.subrange(0, k));
        lemma_sums_nonneg(ps.subrange(0, k));
    } else {
        assert(ps.subrange(0, k) =~= ps);
        lemma_sums_nonneg(ps);
    }
}

proof fn lemma_sums_nonneg(ps: Seq<(WeightedPosition, PositionRatio)>)
    ensures
        sum_asset0(ps) >= 0,
        sum_asset1(ps) >= 0,
    decreases ps.len(),
{
    if ps.len() > 0 {
        lemma_sums_nonneg(ps.drop_last());
    }
}

proof fn lemma_part_le_sums(ps: Seq<(WeightedPosition, PositionRatio)>, k: int)
    requires
        0 <= k < ps.len(),
    ensures
        ps[k].1.asset0 <= sum_asset0(ps),
        ps[k].1.asset1 <= sum_asset1(ps),
    decreases ps.len(),
{
    lemma_sums_nonneg(ps.drop_last());
    if k < ps.len() - 1 {
        lemma_part_le_sums(ps.drop_last(), k);
    }
}

proof fn lemma_min_share_bounds(pr: PositionRatio, total0: int, total1: int)
    requires
        pr.asset0 <= total0,
        pr.asset1 <= total1,
        total0 > 0,
        total1 > 0,
    ensures
        0 <= min_share(pr, total0, total1) <= dec_frac(),
{
    let f = dec_frac();
    let (a0, a1) = (pr.asset0 as int, pr.asset1 as int);
    assert(0 <= a0 * f / total0 <= f) by (nonlinear_arith) requires 0 <= a0 <= total0, total0 > 0, f > 0;
    assert(0 <= a1 * f / total1 <= f) by (nonlinear_arith) requires 0 <= a1 <= total1, total1 > 0, f > 0;
}

proof fn lemma_min_shares_prefix(ps: Seq<(WeightedPosition, PositionRatio)>, k: int, total0: int, total1: int)
    requires
        0 <= k <= ps.len(),
        total0 > 0,
        total1 > 0,
        forall|j: int| 0 <= j < ps.len() ==> (#[trigger] ps[j]).1.asset0 <= total0 && ps[j].1.asset1 <= total1,
    ensures
        0 <= sum_min_shares(ps.subrange(0, k), total0, total1) <= k * dec_frac(),
        k < ps.len() ==> sum_min_shares(ps.subrange(0, k), total0, total1) + min_share(ps[k].1, total0, total1)
            <= sum_min_shares(ps, total0, total1),
    decreases k,
{
    if k > 0 {
        lemma_min_shares_prefix(ps, k - 1, total0, total1);
        assert(ps.subrange(0, k).drop_last() =~= ps.subrange(0, k - 1));
        lemma_min_share_bounds(ps[k - 1].1, total0, total1);
    }
    if k < ps.len() {
        lemma_min_shares_suffix(ps, k + 1, total0, total1);
        assert(ps.subrange(0, k + 1).drop_last() =~= ps.subrange(0, k));
    }
}

proof fn lemma_min_shares_suffix(ps: Seq<(WeightedPosition, PositionRatio)>, k: int, total0: int, total1: int)
    requires
        0 <= k <= ps.len(),
        total0 > 0,
        total1 > 0,
        forall|j: int| 0 <= j < ps.len() ==> (#[trigger] ps[j]).1.asset0 <= total0 && ps[j].1.asset1 <= total1,
    ensures
        sum_min_shares(ps.subrange(0, k), total0, total1) <= sum_min_shares(ps, total0, total1),
    decreases ps.len() - k,
{
    if k < ps.len() {
        lemma_min_shares_suffix(ps, k + 1, total0, total1);
        assert(ps.subrange(0, k + 1).drop_last() =~= ps.subrange(0, k));
        lemma_min_share_bounds(ps[k].1, total0, total1);
    } else {
        assert(ps.subrange(0, k) =~= ps);
    }
}

/// `amount` times a decimal of at most one, rounded down (`Uint128 * Decimal`).
fn apply_fraction(amount: u128, d: Decimal) -> (r: u128)
    requires
        d@ <= dec_frac(),
    ensures
        r == amount * d@ / dec_frac(),
{
    assert(amount * d@ / dec_frac() <= amount) by (nonlinear_arith)
        requires d@ <= dec_frac(), d@ >= 0, amount >= 0, dec_frac() > 0;
    if amount == 0 || d.is_zero() {
        assert(amount * d@ == 0) by (nonlinear_arith) requires amount == 0 || d@ == 0;
        0
    } else {
        u128_multiply_ratio(amount, d.numerator(), d.denominator())
    }
}

/// The totals of the positions' token0 and token1 amounts, `None` where
/// either leaves the 128-bit range.
fn asset_totals(ps: &Vec<(WeightedPosition, PositionRatio)>) -> (r: Option<(u128, u128)>)
    ensures
        match r {
            Some((t0, t1)) => t0 == sum_asset0(ps@) && t1 == sum_asset1(ps@),
            None => sum_asset0(ps@) >= pow2_128() || sum_asset1(ps@) >= pow2_128(),
        },
{
    let ghost s = ps@;
    let n = ps.len();
    let mut total0: u128 = 0;
    let mut total1: u128 = 0;
    let mut i: usize = 0;
    while i < n
        invariant
            n == s.len(),
            s == ps@,
            i <= n,
            total0 == sum_asset0(s.subrange(0, i as int)),
            total1 == sum_asset1(s.subrange(0, i as int)),
        decreases n - i,
    {
        let pr = ps[i].1;
        proof {
            assert(s.subrange(0, i + 1).drop_last() =~= s.subrange(0, i as int));
            lemma_sums_prefix(s, i + 1);
        }
        if total0 > u128::MAX - pr.asset0 || total1 > u128::MAX - pr.asset1 {
            return None;
        }
        total0 = total0 + pr.asset0;
        total1 = total1 + pr.asset1;
        i = i + 1;
    }
    assert(s.subrange(0, n as int) =~= s);
    Some((total0, total1))
}

/// Each position's smaller part of the totals, and their sum.
fn min_shares(ps: &Vec<(WeightedPosition, PositionRatio)>, total0: u128, total1: u128) -> (r: (Vec<Decimal>, u128))
    requires
        total0 == sum_asset0(ps@),
        total1 == sum_asset1(ps@),
        total0 > 0,
        total1 > 0,
    ensures
        r.0@.len() == ps@.len(),
        forall|k: int| 0 <= k < ps@.len() ==> (#[trigger] r.0@[k])@ == min_share(ps@[k].1, total0 as int, total1 as int),
        r.1 == sum_min_shares(ps@, total0 as int, total1 as int),
{
    let ghost s = ps@;
    let ghost (t0, t1) = (total0 as int, total1 as int);
    proof {
        assert forall|j: int| 0 <= j < s.len() implies (#[trigger] s[j]).1.asset0 <= t0 && s[j].1.asset1 <= t1 by {
            lemma_part_le_sums(s, j);
        }
    }
    let n = ps.len();
    let mut shares: Vec<Decimal> = Vec::new();
    let mut total_atoms: u128 = 0;
    let mut j: usize = 0;
    while j < n
        invariant
            n == s.len(),
            s == ps@,
            j <= n,
            t0 == total0 && t1 == total1,
            t0 > 0 && t1 > 0,
            forall|k: int| 0 <= k < s.len() ==> (#[trigger] s[k]).1.asset0 <= t0 && s[k].1.asset1 <= t1,
            shares@.len() == j,
            forall|k: int| 0 <= k < j ==> (#[trigger] shares@[k])@ == min_share(s[k].1, t0, t1),
            total_atoms == sum_min_shares(s.subrange(0, j as int), t0, t1),
        decreases n - j,
    {
        let pr = ps[j].1;
        proof {
            let f = dec_frac();
            let (a0, a1) = (pr.asset0 as int, pr.asset1 as int);
            assert(a0 * f / t0 <= f) by (nonlinear_arith) requires 0 <= a0 <= t0, t0 > 0, f > 0;
            assert(a1 * f / t1 <= f) by (nonlinear_arith) requires 0 <= a1 <= t1, t1 > 0, f > 0;
        }
        let r0 = Decimal::from_ratio(pr.asset0, total0);
        let r1 = Decimal::from_ratio(pr.asset1, total1);
        let share = r0.min(r1);
        proof {
            lemma_min_shares_prefix(s, j as int, t0, t1);
            lemma_min_share_bounds(pr, t0, t1);
            assert(s.subrange(0, j + 1).drop_last() =~= s.subrange(0, j as int));
            let jj = j as int;
            assert((jj + 1) * dec_frac() < pow2_128()) by (nonlinear_arith)
                requires jj + 1 <= 18446744073709551615, dec_frac() == 1000000000000000000,
                    pow2_128() == 0x1_0000_0000_0000_0000_0000_0000_0000_0000;
            assert(jj * dec_frac() + dec_frac() == (jj + 1) * dec_frac()) by (nonlinear_arith);
        }
        total_atoms = total_atoms + share.atomics();
        shares.push(share);
        j = j + 1;
    }
    assert(s.subrange(0, n as int) =~= s);
    (shares, total_atoms)
}

/// Whether the split of `allocate_from_ratios` is defined on `ps`: it is,
/// unless there are positions, the totals fit, and a total or the sum of
/// the smaller parts is zero.
pub open spec fn allocation_defined(ps: Seq<(WeightedPosition, PositionRatio)>) -> bool {
    ps.len() > 0 && sum_asset0(ps) < pow2_128() && sum_asset1(ps) < pow2_128() ==> {
        &&& sum_asset0(ps) > 0
        &&& sum_asset1(ps) > 0
        &&& sum_min_shares(ps, sum_asset0(ps), sum_asset1(ps)) > 0
    }
}

/// The split of `allocate_from_ratios` on positions whose totals fit.
pub open spec fn allocation_seq(ps: Seq<(WeightedPosition, PositionRatio)>, token0: int, token1: int)
    -> Seq<(WeightedPosition, u128, u128)>
{
    let (t0, t1) = (sum_asset0(ps), sum_asset1(ps));
    let total = sum_min_shares(ps, t0, t1);
    Seq::new(ps.len(), |i: int| (
        ps[i].0,
        allocated(token0, min_share(ps[i].1, t0, t1), total) as u128,
        allocated(token1, min_share(ps[i].1, t0, t1), total) as u128,
    ))
}

/// Tests `allocation_defined`.
pub fn check_allocation_defined(ps: &Vec<(WeightedPosition, PositionRatio)>) -> (r: bool)
    ensures
        r == allocation_defined(ps@),
{
    if ps.len() == 0 {
        return true;
    }
    match asset_totals(ps) {
        None => true,
        Some((total0, total1)) => {
            if total0 == 0 || total1 == 0 {
                false
            } else {
                let (_, total) = min_shares(ps, total0, total1);
                total > 0
            }
        },
    }
}

/// Splits the two token amounts over the positions: each position's smaller
/// part of the totals, normalised so the parts add up to one, applied to
/// each token. A total beyond 128 bits is an overflow error; CosmWasm panics
/// on a zero total or zero parts, which `requires` excludes.
pub fn allocate_from_ratios(ps: Vec<(WeightedPosition, PositionRatio)>, token0: u128, token1: u128)
    -> (r: Result<Vec<(WeightedPosition, u128, u128)>, ContractError>)
    requires
        allocation_defined(ps@),
    ensures
        if sum_asset0(ps@) >= pow2_128() || sum_asset1(ps@) >= pow2_128() {
            r == Err::<Vec<(WeightedPosition, u128, u128)>, ContractError>(
                ContractError::OverflowError(OverflowError { operation: OverflowOperation::Add }))
        } else {
            r matches Ok(v) && v@ == allocation_seq(ps@, token0 as int, token1 as int)
        },
{
    let ghost s = ps@;
    let n = ps.len();
    let (total0, total1) = match asset_totals(&ps) {
        Some(t) => t,
        None => { return Err(ContractError::OverflowError(OverflowError { operation: OverflowOperation::Add })); },
    };
    if n == 0 {
        assert(allocation_seq(s, token0 as int, token1 as int) =~= Seq::<(WeightedPosition, u128, u128)>::empty());
        return Ok(Vec::new());
    }
    let ghost (t0, t1) = (total0 as int, total1 as int);
    let (shares, total_atoms) = min_shares(&ps, total0, total1);
    let ghost total = sum_min_shares(s, t0, t1);
    proof {
        assert forall|j: int| 0 <= j < s.len() implies (#[trigger] s[j]).1.asset0 <= t0 && s[j].1.asset1 <= t1 by {
            lemma_part_le_sums(s, j);
        }
    }
    let total_ratio = Decimal::raw(total_atoms);
    let mut out: Vec<(WeightedPosition, u128, u128)> = Vec::new();
    let mut k: usize = 0;
    while k < n
        invariant
            n == s.len(),
            s == ps@,
            k <= n,
            t0 == sum_asset0(s) && t1 == sum_asset1(s),
            t0 > 0 && t1 > 0,
            forall|m: int| 0 <= m < s.len() ==> (#[trigger] s[m]).1.asset0 <= t0 && s[m].1.asset1 <= t1,
            shares@.len() == n,
            forall|m: int| 0 <= m < n ==> (#[trigger] shares@[m])@ == min_share(s[m].1, t0, t1),
            total_ratio@ == total,
            total == sum_min_shares(s, t0, t1),
            total > 0,
            out@.len() == k,
            forall|m: int| 0 <= m < k ==> {
                let share = min_share((#[trigger] s[m]).1, t0, t1);
                &&& out@[m].0 == s[m].0
                &&& out@[m].1 == allocated(token0 as int, share, total)
                &&& out@[m].2 == allocated(token1 as int, share, total)
            },
        decreases n - k,
    {
        let share = shares[k];
        proof {
            lemma_min_shares_prefix(s, k as int, t0, t1);
            lemma_min_share_bounds(s[k as int].1, t0, t1);
            let (a, t, f) = (share@ as int, total, dec_frac());
            assert(a * f / t <= f) by (nonlinear_arith) requires 0 <= a <= t, t > 0, f > 0;
        }
        let normalized = share.div(total_ratio);
        let a0 = apply_fraction(token0, normalized);
        let a1 = apply_fraction(token1, normalized);
        out.push((ps[k].0, a0, a1));
        k = k + 1;
    }
    assert(out@ =~= allocation_seq(s, token0 as int, token1 as int));
    Ok(out)
}

/// The wanted ratio of each position (see `get_min_ratio_per_position`),
/// then the two token amounts split over the positions by those ratios
/// (see `allocate_from_ratios`). `None` where CosmWasm panics: there are
/// positions whose totals fit, and a total or the sum of their smaller parts
/// is zero.
pub fn allocate_funds_per_position(positions: Vec<RangedPosition>, spot_price: Decimal, token0: u128, token1: u128)
    -> (r: Option<Result<Vec<(WeightedPosition, u128, u128)>, ContractError>>)
    requires
        first_tick_error(positions@) is None ==> total_weight(positions@) < pow2_128()
            && (positions@.len() > 0 ==> total_weight(positions@) > 0),
    ensures
        match first_tick_error(positions@) {
            Some(e) => r == Some(Err::<Vec<(WeightedPosition, u128, u128)>, ContractError>(e)),
            None => {
                let ps = min_ratio_seq(positions@, spot_price@);
                if !allocation_defined(ps) {
                    r is None
                } else if sum_asset0(ps) >= pow2_128() || sum_asset1(ps) >= pow2_128() {
                    r == Some(Err::<Vec<(WeightedPosition, u128, u128)>, ContractError>(
                        ContractError::OverflowError(OverflowError { operation: OverflowOperation::Add })))
                } else {
                    r matches Some(Ok(v)) && v@ == allocation_seq(ps, token0 as int, token1 as int)
                }
            },
        },
{
    match get_min_ratio_per_position(positions, spot_price) {
        Err(e) => Some(Err(e)),
        Ok(ps) => {
            if check_allocation_defined(&ps) {
                Some(allocate_from_ratios(ps, token0, token1))
            } else {
                None
            }
        },
    }
}

/// The sum of the first `k` token0 amounts of a split.
pub open spec fn split_total0(v: Seq<(WeightedPosition, u128, u128)>, k: int) -> int
    decreases k,
{
    if k <= 0 { 0 } else { split_total0(v, k - 1) + v[k - 1].1 }
}

/// The sum of the first `k` token1 amounts of a split.
pub open spec fn split_total1(v: Seq<(WeightedPosition, u128, u128)>, k: int) -> int
    decreases k,
{
    if k <= 0 { 0 } else { split_total1(v, k - 1) + v[k - 1].2 }
}

/// The sum of the first `k` normalised parts.
spec fn norm_prefix(ps: Seq<(WeightedPosition, PositionRatio)>, t0: int, t1: int, total: int, k: int) -> int
    decreases k,
{
    if k <= 0 { 0 } else { norm_prefix(ps, t0, t1, total, k - 1) + min_share(ps[k - 1].1, t0, t1) * dec_frac() / total }
}

proof fn lemma_norm_prefix(ps: Seq<(WeightedPosition, PositionRatio)>, t0: int, t1: int, total: int, k: int)
    requires
        0 <= k <= ps.len(),
        t0 > 0,
        t1 > 0,
        total > 0,
        forall|j: int| 0 <= j < ps.len() ==> (#[trigger] ps[j]).1.asset0 <= t0 && ps[j].1.asset1 <= t1,
    ensures
        0 <= norm_prefix(ps, t0, t1, total, k),
        norm_prefix(ps, t0, t1, total, k) * total <= sum_min_shares(ps.subrange(0, k), t0, t1) * dec_frac(),
    decreases k,
{
    if k > 0 {
        lemma_norm_prefix(ps, t0, t1, total, k - 1);
        assert(ps.subrange(0, k).drop_last() =~= ps.subrange(0, k - 1));
        lemma_min_share_bounds(ps[k - 1].1, t0, t1);
        let sh = min_share(ps[k - 1].1, t0, t1);
        let f = dec_frac();
        let np = norm_prefix(ps, t0, t1, total, k - 1);
        let sp = sum_min_shares(ps.subrange(0, k - 1), t0, t1);
        assert((sh * f / total) * total <= sh * f && sh * f / total >= 0) by (nonlinear_arith)
            requires sh >= 0, f > 0, total > 0;
        assert((np + sh * f / total) * total <= (sp + sh) * f) by (nonlinear_arith)
            requires np * total <= sp * f, (sh * f / total) * total <= sh * f;
    }
}

proof fn lemma_split_prefix(ps: Seq<(WeightedPosition, PositionRatio)>, a: int, b: int, k: int)
    requires
        0 <= k <= ps.len(),
        0 <= a < pow2_128(),
        0 <= b < pow2_128(),
        sum_asset0(ps) > 0,
        sum_asset1(ps) > 0,
        sum_min_shares(ps, sum_asset0(ps), sum_asset1(ps)) > 0,
        forall|j: int| 0 <= j < ps.len() ==> (#[trigger] ps[j]).1.asset0 <= sum_asset0(ps) && ps[j].1.asset1 <= sum_asset1(ps),
    ensures
        split_total0(allocation_seq(ps, a, b), k) * dec_frac()
            <= a * norm_prefix(ps, sum_asset0(ps), sum_asset1(ps), sum_min_shares(ps, sum_asset0(ps), sum_asset1(ps)), k),
        split_total1(allocation_seq(ps, a, b), k) * dec_frac()
            <= b * norm_prefix(ps, sum_asset0(ps), sum_asset1(ps), sum_min_shares(ps, sum_asset0(ps), sum_asset1(ps)), k),
    decreases k,
{
    if k > 0 {
        let (t0, t1) = (sum_asset0(ps), sum_asset1(ps));
        let total = sum_min_shares(ps, t0, t1);
        let v = allocation_seq(ps, a, b);
        lemma_split_prefix(ps, a, b, k - 1);
        lemma_min_shares_prefix(ps, k - 1, t0, t1);
        lemma_norm_prefix(ps, t0, t1, total, k - 1);
        lemma_min_share_bounds(ps[k - 1].1, t0, t1);
        let sh = min_share(ps[k - 1].1, t0, t1);
        let f = dec_frac();
        let nk = sh * f / total;
        assert(0 <= sh * f / total <= f) by (nonlinear_arith) requires 0 <= sh <= total, total > 0, f > 0;
        assert(0 <= a * nk / f <= a && (a * nk / f) * f <= a * nk) by (nonlinear_arith) requires 0 <= nk <= f, f > 0, a >= 0;
        assert(0 <= b * nk / f <= b && (b * nk / f) * f <= b * nk) by (nonlinear_arith) requires 0 <= nk <= f, f > 0, b >= 0;
        assert(v[k - 1].1 == a * nk / f);
        assert(v[k - 1].2 == b * nk / f);
        let np = norm_prefix(ps, t0, t1, total, k - 1);
        let s0 = split_total0(v, k - 1);
        let s1 = split_total1(v, k - 1);
        assert((s0 + a * nk / f) * f <= a * (np + nk)) by (nonlinear_arith)
            requires s0 * f <= a * np, (a * nk / f) * f <= a * nk;
        assert((s1 + b * nk / f) * f <= b * (np + nk)) by (nonlinear_arith)
            requires s1 * f <= b * np, (b * nk / f) * f <= b * nk;
    }
}

/// The split hands out no more than the two amounts: the token0 parts of
/// all positions add up to at most `token0`, and the token1 parts to at most
/// `token1`.
pub proof fn law_allocation_within_funds(ps: Seq<(WeightedPosition, PositionRatio)>, token0: u128, token1: u128)
    requires
        allocation_defined(ps),
        sum_asset0(ps) < pow2_128(),
        sum_asset1(ps) < pow2_128(),
    ensures
        split_total0(allocation_seq(ps, token0 as int, token1 as int), ps.len() as int) <= token0,
        split_total1(allocation_seq(ps, token0 as int, token1 as int), ps.len() as int) <= token1,
{
    if ps.len() > 0 {
        let (t0, t1) = (sum_asset0(ps), sum_asset1(ps));
        let total = sum_min_shares(ps, t0, t1);
        assert forall|j: int| 0 <= j < ps.len() implies (#[trigger] ps[j]).1.asset0 <= t0 && ps[j].1.asset1 <= t1 by {
            lemma_part_le_sums(ps, j);
        }
        lemma_split_prefix(ps, token0 as int, token1 as int, ps.len() as int);
        lemma_norm_prefix(ps, t0, t1, total, ps.len() as int);
        assert(ps.subrange(0, ps.len() as int) =~= ps);
        let np = norm_prefix(ps, t0, t1, total, ps.len() as int);
        let f = dec_frac();
        assert(np <= f) by (nonlinear_arith) requires np * total <= total * f, total > 0;
        let v = allocation_seq(ps, token0 as int, token1 as int);
        let (s0, s1) = (split_total0(v, ps.len() as int), split_total1(v, ps.len() as int));
        let (a, b) = (token0 as int, token1 as int);
        assert(s0 <= a) by (nonlinear_arith) requires s0 * f <= a * np, np <= f, f > 0, a >= 0;
        assert(s1 <= b) by (nonlinear_arith) requires s1 * f <= b * np, np <= f, f > 0, b >= 0;
    }
}

} // verus!
