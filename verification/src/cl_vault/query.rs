use vstd::prelude::*;
use std::collections::BTreeMap;
use crate::cl_vault::coinlist::{parse_u128, parse_u128_spec, scaled, CoinList, OsmoCoin};
use crate::cl_vault::error::ContractError;
use crate::coin::{positive_coins, sorted_by_denom, Coin};
use crate::math::decimal::Decimal;
use crate::math::uint::pow2_128;
use crate::cl_vault::state::{PoolConfig, Position, TickExpIndexData};
use crate::cl_vault::tick::{cache_down_walk, cache_up_walk, verify_tick_exp_cache};
use crate::math::decimal::dec_frac;

verus! {

/// The pool of the vault.
pub struct PoolResponse {
    pub pool_config: PoolConfig,
}

/// The positions of the vault.
#[derive(Debug, Clone, PartialEq, Eq)]
pub struct PositionsResponse {
    pub positions: Vec<Position>,
}

/// The address of the range admin.
#[derive(Debug, Clone, PartialEq, Eq)]
pub struct RangeAdminResponse {
    pub address: String,
}

/// The outcome of checking the tick cache: the first missing key, if any.
#[derive(Debug, Clone, Copy, PartialEq, Eq)]
pub struct VerifyTickCacheResponse {
    pub result: Result<(), i64>,
}

/// The address of the dex router.
#[derive(Debug, Clone, PartialEq, Eq)]
pub struct DexRouterResponse {
    pub dex_router: String,
}

/// The outcome of `verify_tick_exp_cache` on a cache, as a key or success.
pub open spec fn spec_cache_check(m: Map<i64, TickExpIndexData>) -> Result<(), i64> {
    match cache_up_walk(m, 0, dec_frac()) {
        Err(t) => Err(t),
        Ok(_) => match cache_down_walk(m, 0, dec_frac()) {
            Err(t) => Err(t),
            Ok(_) => Ok(()),
        },
    }
}

/// Checks the tick cache and answers with the first missing key, or success.
/// A missing key is an answer, not an error.
pub fn query_verify_tick_cache(cache: &BTreeMap<i64, TickExpIndexData>) -> (r: Result<VerifyTickCacheResponse, ContractError>)
    requires
        cache@.contains_key(i64::MAX) ==> cache_up_walk(cache@, 0, dec_frac()) != Err::<(), i64>(i64::MAX),
        cache@.contains_key(i64::MIN) && cache_up_walk(cache@, 0, dec_frac()) is Ok
            ==> cache_down_walk(cache@, 0, dec_frac()) != Err::<(), i64>(i64::MIN),
    ensures
        r == Ok::<VerifyTickCacheResponse, ContractError>(VerifyTickCacheResponse { result: spec_cache_check(cache@) }),
{
    let v = verify_tick_exp_cache(cache);
    match v {
        Ok(()) => Ok(VerifyTickCacheResponse { result: Ok(()) }),
        Err(ContractError::TickNotFound { tick }) => Ok(VerifyTickCacheResponse { result: Err(tick) }),
        Err(e) => Err(e),
    }
}

/// The assets of the vault in its two tokens.
#[derive(Debug, Clone, PartialEq, Eq)]
pub struct TotalAssetsResponse {
    pub token0: Coin,
    pub token1: Coin,
}

/// The amount a position reports for one token: its digits read as a
/// `u128`, zero where the token is absent.
pub open spec fn reported_amount(c: Option<OsmoCoin>) -> int {
    match c {
        Some(c) => match parse_u128_spec(vstd::utf8::encode_utf8(c.amount@)) {
            Some(v) => v as int,
            None => 0,
        },
        None => 0,
    }
}

/// Whether a position's reported amount reads as a `u128`.
pub open spec fn amount_readable(c: Option<OsmoCoin>) -> bool {
    match c {
        Some(c) => parse_u128_spec(vstd::utf8::encode_utf8(c.amount@)) is Some,
        None => true,
    }
}

/// The sum of the first `k` positions' amounts of token0 (`first`) or token1.
pub open spec fn reported_total(ps: Seq<(Option<OsmoCoin>, Option<OsmoCoin>)>, k: int, first: bool) -> int
    decreases k,
{
    if k <= 0 {
        0
    } else {
        reported_total(ps, k - 1, first) + reported_amount(if first { ps[k - 1].0 } else { ps[k - 1].1 })
    }
}

proof fn lemma_reported_total_monotone(ps: Seq<(Option<OsmoCoin>, Option<OsmoCoin>)>, i: int, k: int, first: bool)
    requires
        0 <= i <= k,
    ensures
        0 <= reported_total(ps, i, first) <= reported_total(ps, k, first),
    decreases k - i,
{
    if i < k {
        lemma_reported_total_monotone(ps, i, k - 1, first);
    } else {
        lemma_reported_total_nonneg(ps, i, first);
    }
}

proof fn lemma_reported_total_nonneg(ps: Seq<(Option<OsmoCoin>, Option<OsmoCoin>)>, k: int, first: bool)
    ensures
        0 <= reported_total(ps, k, first),
    decreases k,
{
    if k > 0 {
        lemma_reported_total_nonneg(ps, k - 1, first);
    }
}

/// The amount of a reported coin; requires that it reads.
fn read_amount(c: &Option<OsmoCoin>) -> (r: u128)
    requires
        amount_readable(*c),
    ensures
        r == reported_amount(*c),
{
    match c {
        Some(c) => match parse_u128(&c.amount) {
            Some(v) => v,
            None => 0,
        },
        None => 0,
    }
}

/// All the vault's assets: what its positions report in each token (the
/// pool's two tokens, as `(asset0, asset1)`) plus its free balances. CosmWasm
/// panics on an amount that does not read or a sum beyond 128 bits, which
/// `requires` excludes.
pub fn query_total_assets(positions: &Vec<(Option<OsmoCoin>, Option<OsmoCoin>)>, free0: Coin, free1: Coin)
    -> (r: TotalAssetsResponse)
    requires
        forall|i: int| 0 <= i < positions@.len() ==> amount_readable((#[trigger] positions@[i]).0) && amount_readable(positions@[i].1),
        reported_total(positions@, positions@.len() as int, true) + free0.amount < pow2_128(),
        reported_total(positions@, positions@.len() as int, false) + free1.amount < pow2_128(),
    ensures
        r.token0.denom == free0.denom,
        r.token0.amount == reported_total(positions@, positions@.len() as int, true) + free0.amount,
        r.token1.denom == free1.denom,
        r.token1.amount == reported_total(positions@, positions@.len() as int, false) + free1.amount,
{
    let ghost ps = positions@;
    let n = positions.len();
    let mut amount0: u128 = 0;
    let mut amount1: u128 = 0;
    let mut i: usize = 0;
    while i < n
        invariant
            n == ps.len(),
            ps == positions@,
            i <= n,
            forall|j: int| 0 <= j < ps.len() ==> amount_readable((#[trigger] ps[j]).0) && amount_readable(ps[j].1),
            reported_total(ps, n as int, true) < pow2_128(),
            reported_total(ps, n as int, false) < pow2_128(),
            amount0 == reported_total(ps, i as int, true),
            amount1 == reported_total(ps, i as int, false),
        decreases n - i,
    {
        proof {
            lemma_reported_total_monotone(ps, i + 1, n as int, true);
            lemma_reported_total_monotone(ps, i + 1, n as int, false);
        }
        amount0 = amount0 + read_amount(&positions[i].0);
        amount1 = amount1 + read_amount(&positions[i].1);
        i = i + 1;
    }
    TotalAssetsResponse {
        token0: Coin { denom: free0.denom, amount: amount0 + free0.amount },
        token1: Coin { denom: free1.denom, amount: amount1 + free1.amount },
    }
}

/// The assets that `shares` of `supply` vault shares stand for: each of the
/// vault's two tokens scaled by the decimal `shares / supply` (rounded down),
/// then the positive ones sorted by denomination. CosmWasm panics on a zero
/// supply or a ratio or product beyond 128 bits, which `requires` excludes.
pub fn query_assets_from_shares(total: &TotalAssetsResponse, shares: u128, supply: u128) -> (r: Vec<Coin>)
    requires
        supply != 0,
        shares * crate::math::decimal::dec_frac() / (supply as int) < pow2_128(),
        total.token0.amount * (shares * crate::math::decimal::dec_frac() / (supply as int)) / crate::math::decimal::dec_frac() <= u128::MAX,
        total.token1.amount * (shares * crate::math::decimal::dec_frac() / (supply as int)) / crate::math::decimal::dec_frac() <= u128::MAX,
    ensures
        ({
            let ratio = shares * crate::math::decimal::dec_frac() / (supply as int);
            let balance = seq![total.token0, total.token1];
            r@ == positive_coins(sorted_by_denom(if ratio == 0 { Seq::<Coin>::empty() } else { scaled(balance, ratio) }))
        }),
{
    let mut coins: Vec<Coin> = Vec::new();
    coins.push(total.token0.duplicate());
    coins.push(total.token1.duplicate());
    let balance = CoinList::from_coins(coins);
    let ratio = Decimal::from_ratio(shares, supply);
    proof {
        assert(balance@ =~= seq![total.token0, total.token1]);
    }
    let part = balance.mul_ratio(ratio);
    part.coins()
}

} // verus!
