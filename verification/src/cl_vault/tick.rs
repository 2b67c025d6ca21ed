use vstd::prelude::*;
use std::collections::BTreeMap;
use crate::cl_vault::error::{is_generic_err, ContractError, StdError};
use crate::cl_vault::state::TickExpIndexData;
use crate::math::keys::lemma_i64_key_order;
use crate::math::decimal::{
    cw_decimal256_checked_pow, dec_frac, lemma_pow10_adds, lemma_pow10_le, lemma_pow10_lt, lemma_pow10_positive, pow10, Decimal,
    Decimal256,
    DECIMAL_FRACTIONAL,
};
use crate::math::uint::{
    pow2_128, pow2_256, u256_checked_mul, CheckedFromRatioError, OverflowError, OverflowOperation,
    Uint256,
};

verus! {

pub const EXPONENT_AT_PRICE_ONE: i64 = -6;
pub const MIN_INITIALIZED_TICK: i64 = -108000000;
pub const MAX_TICK: i128 = 342000000;

/// Ticks per power of ten of the price: `9 * 10^(-EXPONENT_AT_PRICE_ONE)`.
pub const GEOMETRIC_EXPONENT_INCREMENT_DISTANCE_IN_TICKS: i64 = 9000000;

/// Values of the powers of ten that the price bounds use.
pub proof fn lemma_pow10_values()
    ensures
        pow10(6) == 1_000_000,
        pow10(7) == 10_000_000,
        pow10(18) == dec_frac(),
        pow10(36) == dec_frac() * dec_frac(),
        pow10(56) == 100_000_000_000_000_000_000_000_000_000_000_000_000_000_000_000_000_000_000int,
{
    reveal_with_fuel(pow10, 57);
}

/// The largest spot price, 10^38.
pub fn max_spot_price() -> (r: Decimal256)
    ensures
        r@ == pow10(56),
{
    proof { lemma_pow10_values(); }
    Decimal256::new(Uint256 { hi: 293873587705571876u128, lo: 337622765642898738890454548373825388544u128 })
}

/// The smallest spot price, 10^-12.
pub fn min_spot_price() -> (r: Decimal256)
    ensures
        r@ == pow10(6),
{
    proof { lemma_pow10_values(); }
    Decimal256::raw(1_000_000u128)
}

/// `10^e` when it fits in 128 bits, as `u128::checked_pow` computes it.
pub fn checked_pow10_u128(e: u32) -> (r: Option<u128>)
    ensures
        match r {
            Some(v) => v == pow10(e as nat),
            None => pow10(e as nat) >= pow2_128(),
        },
{
    let mut acc: u128 = 1;
    let mut i: u32 = 0;
    while i < e
        invariant
            i <= e,
            acc == pow10(i as nat),
        decreases e - i,
    {
        if acc > u128::MAX / 10 {
            proof {
                lemma_pow10_le((i + 1) as nat, e as nat);
                assert(pow10((i + 1) as nat) == 10 * pow10(i as nat));
            }
            return None;
        }
        acc = acc * 10;
        i = i + 1;
    }
    Some(acc)
}

/// The exponent that `exponent.unsigned_abs() as u32` yields.
pub open spec fn abs_exponent_u32(exponent: int) -> nat {
    ((if exponent < 0 { -exponent } else { exponent }) % 0x1_0000_0000) as nat
}

fn abs_exponent(exponent: i64) -> (r: u32)
    ensures
        r == abs_exponent_u32(exponent as int),
{
    let a: u64 = if exponent < 0 { (0 - (exponent as i128)) as u64 } else { exponent as u64 };
    (a % 0x1_0000_0000u64) as u32
}

/// `10^exponent` as an unsigned integer; negative exponents are refused.
pub fn pow_ten_internal_u128(exponent: i64) -> (r: Result<u128, ContractError>)
    ensures
        exponent < 0 ==> r == Err::<u128, ContractError>(ContractError::CannotHandleNegativePowersInUint),
        exponent >= 0 ==> match r {
            Ok(v) => v == pow10(abs_exponent_u32(exponent as int)),
            Err(e) => e == ContractError::OverflowError(OverflowError { operation: OverflowOperation::Pow })
                && pow10(abs_exponent_u32(exponent as int)) >= pow2_128(),
        },
{
    if exponent >= 0 {
        match checked_pow10_u128(abs_exponent(exponent)) {
            Some(v) => Ok(v),
            None => Err(ContractError::OverflowError(OverflowError { operation: OverflowOperation::Pow })),
        }
    } else {
        Err(ContractError::CannotHandleNegativePowersInUint)
    }
}

/// `10^exponent` as a 128-bit decimal; a negative exponent gives
/// `1 / 10^-exponent` rounded down to 18 places.
pub fn pow_ten_internal_dec(exponent: i64) -> (r: Result<Decimal, ContractError>)
    requires
        exponent >= 0 ==> pow10(abs_exponent_u32(exponent as int)) * dec_frac() < pow2_128(),
    ensures
        match r {
            Ok(v) => pow10(abs_exponent_u32(exponent as int)) < pow2_128() && v@ == if exponent >= 0 {
                pow10(abs_exponent_u32(exponent as int)) * dec_frac()
            } else {
                dec_frac() / pow10(abs_exponent_u32(exponent as int))
            },
            Err(e) => e == ContractError::OverflowError(OverflowError { operation: OverflowOperation::Pow })
                && pow10(abs_exponent_u32(exponent as int)) >= pow2_128(),
        },
{
    let p = match checked_pow10_u128(abs_exponent(exponent)) {
        Some(v) => v,
        None => {
            return Err(ContractError::OverflowError(OverflowError { operation: OverflowOperation::Pow }));
        },
    };
    proof { lemma_pow10_positive(abs_exponent_u32(exponent as int)); }
    if exponent >= 0 {
        Ok(Decimal::from_ratio(p, 1))
    } else {
        Ok(Decimal::from_ratio(1, p))
    }
}

/// `10^exponent` as a 256-bit decimal; a negative exponent gives
/// `1 / 10^-exponent` rounded down to 18 places. The exponent's size is taken
/// as a `u32` (truncated); a power beyond 256 bits is an overflow error, and
/// CosmWasm panics for the sizes 60 to 63, which `requires` excludes.
pub fn pow_ten_internal_dec_256(exponent: i64) -> (r: Result<Decimal256, ContractError>)
    requires
        abs_exponent_u32(exponent as int) < 60 || abs_exponent_u32(exponent as int) > 63,
    ensures
        abs_exponent_u32(exponent as int) > 59 ==>
            r == Err::<Decimal256, ContractError>(ContractError::OverflowError(OverflowError { operation: OverflowOperation::Pow })),
        abs_exponent_u32(exponent as int) <= 59 ==> (r matches Ok(v) && v@ == if exponent >= 0 {
            pow10((abs_exponent_u32(exponent as int) + 18) as nat)
        } else {
            pow10(36) / pow10((18 + abs_exponent_u32(exponent as int)) as nat)
        }),
{
    let ten = Decimal256::raw(10 * DECIMAL_FRACTIONAL);
    let e = abs_exponent(exponent);
    proof {
        lemma_pow10_values();
        lemma_pow10_adds(e as nat, 18);
        lemma_pow10_positive(e as nat);
    }
    let p = match cw_decimal256_checked_pow(ten, e) {
        Ok(v) => v,
        Err(_) => {
            return Err(ContractError::OverflowError(OverflowError { operation: OverflowOperation::Pow }));
        },
    };
    if exponent >= 0 {
        Ok(p)
    } else {
        proof {
            lemma_pow10_adds(18, e as nat);
            lemma_pow10_positive((18 + e) as nat);
            assert(pow10(36) / pow10((18 + e) as nat) <= pow10(36)) by (nonlinear_arith)
                requires pow10((18 + e) as nat) >= 1, pow10(36) >= 0;
            assert(pow10(36) < pow2_256());
            assert(dec_frac() * pow10(18) == pow10(36));
        }
        Ok(Decimal256::one().div(p))
    }
}

/// Number of whole increments of the geometric exponent between tick 0 and `t`,
/// rounded towards zero.
pub open spec fn tick_delta(t: int) -> int {
    if t >= 0 { t / 9000000 } else { -((-t) / 9000000) }
}

/// Ticks beyond the last whole increment; has the sign of `t`.
pub open spec fn tick_rem(t: int) -> int {
    t - tick_delta(t) * 9000000
}

/// Atomic units (10^-18) of the price at tick `t`: starting at `10^delta`, each
/// further tick adds `10^(delta - 6)` for positive ticks and `10^(delta - 7)`
/// for negative ones.
pub open spec fn spec_tick_to_price(t: int) -> int {
    if t == 0 {
        dec_frac()
    } else if t > 0 {
        pow10((18 + tick_delta(t)) as nat) + tick_rem(t) * pow10((12 + tick_delta(t)) as nat)
    } else {
        pow10((18 + tick_delta(t)) as nat) + tick_rem(t) * (if tick_delta(t) >= -11 {
            pow10((11 + tick_delta(t)) as nat)
        } else {
            0
        })
    }
}

/// Whether `t` lies in the range of initialized ticks.
pub open spec fn valid_tick(t: int) -> bool {
    MIN_INITIALIZED_TICK <= t <= MAX_TICK
}

/// `(a * b) / b == a` for positive `b`.
pub proof fn lemma_mul_div_cancel(a: int, b: int)
    requires
        b > 0,
    ensures
        (a * b) / b == a,
        (b * a) / b == a,
{
    assert((a * b) / b == a) by (nonlinear_arith) requires b > 0;
    assert(b * a == a * b) by (nonlinear_arith);
}

/// `10^36 / 10^(18 + k) == 10^(18 - k)` for `k <= 18`.
pub proof fn lemma_pow10_36_div(k: int)
    requires
        -18 <= k <= 18,
    ensures
        pow10(36) / pow10((18 + k) as nat) == pow10((18 - k) as nat),
        dec_frac() / pow10(k as nat) == pow10((18 - k) as nat) || k < 0,
{
    lemma_pow10_adds((18 - k) as nat, (18 + k) as nat);
    lemma_pow10_positive((18 + k) as nat);
    lemma_mul_div_cancel(pow10((18 - k) as nat), pow10((18 + k) as nat));
    if k >= 0 {
        lemma_pow10_adds((18 - k) as nat, k as nat);
        lemma_pow10_positive(k as nat);
        lemma_pow10_values();
        lemma_mul_div_cancel(pow10((18 - k) as nat), pow10(k as nat));
    }
}

/// The price at a valid non-zero tick lies between the minimum and maximum
/// spot prices.
pub proof fn lemma_tick_price_bounds(t: int)
    requires
        valid_tick(t),
        t != 0,
    ensures
        pow10(6) <= spec_tick_to_price(t) <= pow10(56),
{
    let d = tick_delta(t);
    let n = tick_rem(t);
    lemma_pow10_values();
    if t > 0 {
        assert(0 <= d <= 38 && 0 <= n < 9000000);
        lemma_pow10_adds(6, (12 + d) as nat);
        lemma_pow10_adds(7, (12 + d) as nat);
        lemma_pow10_positive((12 + d) as nat);
        lemma_pow10_le(6, (12 + d) as nat);
        let q = pow10((12 + d) as nat);
        assert(spec_tick_to_price(t) == q * (1_000_000 + n)) by (nonlinear_arith)
            requires spec_tick_to_price(t) == pow10((18 + d) as nat) + n * q, pow10((18 + d) as nat) == 1_000_000 * q;
        assert(spec_tick_to_price(t) >= q * 1_000_000) by (nonlinear_arith)
            requires spec_tick_to_price(t) == q * (1_000_000 + n), n >= 0, q >= 1;
        if d == 38 {
            assert(n == 0);
        } else {
            lemma_pow10_le((19 + d) as nat, 56);
            assert(spec_tick_to_price(t) <= q * 10_000_000) by (nonlinear_arith)
                requires spec_tick_to_price(t) == q * (1_000_000 + n), n < 9000000, q >= 1;
        }
    } else {
        assert(-12 <= d <= 0 && -9000000 < n <= 0);
        if n == 0 {
            lemma_pow10_le(6, (18 + d) as nat);
            lemma_pow10_le((18 + d) as nat, 56);
        } else {
            assert(d >= -11);
            let q = pow10((11 + d) as nat);
            lemma_pow10_adds(7, (11 + d) as nat);
            lemma_pow10_adds(6, (11 + d) as nat);
            lemma_pow10_positive((11 + d) as nat);
            lemma_pow10_le(0, (11 + d) as nat);
            lemma_pow10_le((18 + d) as nat, 56);
            assert(spec_tick_to_price(t) == q * (10_000_000 + n)) by (nonlinear_arith)
                requires spec_tick_to_price(t) == pow10((18 + d) as nat) + n * q, pow10((18 + d) as nat) == 10_000_000 * q;
            assert(q * (10_000_000 + n) >= q * 1_000_000) by (nonlinear_arith)
                requires n > -9000000, q >= 1;
            assert(q * 1_000_000 >= 1_000_000) by (nonlinear_arith) requires q >= 1;
            assert(q * (10_000_000 + n) <= q * 10_000_000) by (nonlinear_arith)
                requires n <= 0, q >= 1;
        }
    }
}

/// The error of a tick's arithmetic that leaves its range.
fn std_parse_err() -> (r: ContractError)
    ensures
        is_generic_err(r, "Value too big"@),
{
    ContractError::Std(StdError::GenericErr { msg: "Value too big".to_string() })
}

/// The price at a tick: `10^delta + rem * 10^(delta - 6)` (or `- 7` below
/// tick 0), where `delta` and `rem` are the quotient and remainder of the tick
/// by 9,000,000.
#[verifier::spinoff_prover]
#[verifier::rlimit(40)]
pub fn tick_to_price(tick_index: i64) -> (r: Result<Decimal256, ContractError>)
    ensures
        tick_index != 0 && tick_index < MIN_INITIALIZED_TICK
            ==> r == Err::<Decimal256, ContractError>(ContractError::TickIndexMinError),
        tick_index > MAX_TICK ==> r == Err::<Decimal256, ContractError>(ContractError::TickIndexMaxError),
        tick_index == 0 || valid_tick(tick_index as int) ==> (r matches Ok(p) && p@ == spec_tick_to_price(tick_index as int)),
{
    if tick_index == 0 {
        return Ok(Decimal256::one());
    }
    let dist: i64 = GEOMETRIC_EXPONENT_INCREMENT_DISTANCE_IN_TICKS;
    if tick_index < MIN_INITIALIZED_TICK {
        return Err(ContractError::TickIndexMinError);
    }
    if tick_index as i128 > MAX_TICK {
        return Err(ContractError::TickIndexMaxError);
    }
    let geometric_exponent_delta: i64 = tick_index / dist;
    let mut exponent_at_current_tick: i64 = EXPONENT_AT_PRICE_ONE + geometric_exponent_delta;
    if tick_index < 0 {
        exponent_at_current_tick = exponent_at_current_tick - 1;
    }
    let ghost t = tick_index as int;
    let ghost d = tick_delta(t);
    let ghost n = tick_rem(t);
    assert(geometric_exponent_delta == d);
    assert(-12 <= d <= 38);
    let current_additive_increment_in_ticks = match pow_ten_internal_dec_256(exponent_at_current_tick) {
        Ok(v) => v,
        Err(e) => { return Err(e); },
    };
    let num_additive_ticks: i64 = tick_index - geometric_exponent_delta * dist;
    assert(num_additive_ticks == n);
    proof {
        lemma_pow10_values();
        if t > 0 {
            assert(0 <= n < 9000000);
            assert(current_additive_increment_in_ticks@ == pow10((12 + d) as nat)) by {
                if exponent_at_current_tick < 0 {
                    let k = -exponent_at_current_tick;
                    lemma_pow10_adds((18 - k) as nat, (18 + k) as nat);
                    lemma_pow10_positive((18 + k) as nat);
                    assert(pow10(36) / pow10((18 + k) as nat) == pow10((18 - k) as nat)) by (nonlinear_arith)
                        requires pow10(36) == pow10((18 - k) as nat) * pow10((18 + k) as nat), pow10((18 + k) as nat) >= 1;
                }
            }
        } else {
            assert(-9000000 < n <= 0);
        }
    }
    let price: Decimal256 = if num_additive_ticks < 0 {
        proof {
            assert(-11 <= d <= 0);
            lemma_pow10_le(abs_exponent_u32(d), 18);
        }
        let base = match pow_ten_internal_dec(geometric_exponent_delta) {
            Ok(v) => v,
            Err(e) => { return Err(e); },
        };
        proof {
            lemma_pow10_36_div(-d);
            lemma_pow10_36_div(-(d - 7));
            if d == 0 {
                reveal_with_fuel(pow10, 2);
            }
            assert(base@ == pow10((18 + d) as nat));
            assert(current_additive_increment_in_ticks@ == pow10((11 + d) as nat));
            lemma_pow10_le((11 + d) as nat, 11);
            lemma_pow10_le(11, 18);
            lemma_pow10_positive((11 + d) as nat);
        }
        let n_dec = match Decimal::from_uint128((0 - num_additive_ticks) as u128) {
            Ok(v) => v,
            Err(_) => { return Err(std_parse_err()); },
        };
        let incr_dec = match current_additive_increment_in_ticks.to_decimal() {
            Ok(v) => v,
            Err(_) => { return Err(std_parse_err()); },
        };
        proof {
            let q = pow10((11 + d) as nat);
            assert((-n) * dec_frac() * q == (-n * q) * dec_frac()) by (nonlinear_arith);
            lemma_mul_div_cancel(-n * q, dec_frac());
            assert(-n * q <= 9000000 * q) by (nonlinear_arith) requires -n <= 9000000, q >= 0;
            lemma_pow10_adds(7, (11 + d) as nat);
            assert(-n * q < pow10((18 + d) as nat)) by (nonlinear_arith)
                requires -n < 9000000, q >= 1, pow10((18 + d) as nat) == 10_000_000 * q;
        }
        let prod = match n_dec.checked_mul(incr_dec) {
            Ok(v) => v,
            Err(e) => { return Err(ContractError::OverflowError(e)); },
        };
        match base.checked_sub(prod) {
            Ok(v) => {
                assert(prod@ == -n * pow10((11 + d) as nat));
                assert(-n * pow10((11 + d) as nat) == -(n * pow10((11 + d) as nat))) by (nonlinear_arith);
                assert(v@ == spec_tick_to_price(t));
                v.to_decimal256()
            },
            Err(e) => { return Err(ContractError::OverflowError(e)); },
        }
    } else {
        let base = match pow_ten_internal_dec_256(geometric_exponent_delta) {
            Ok(v) => v,
            Err(e) => { return Err(e); },
        };
        proof {
            if d < 0 {
                lemma_pow10_36_div(-d);
            } else {
                lemma_pow10_adds(d as nat, 18);
            }
            assert(base@ == pow10((18 + d) as nat));
            let q = if t > 0 { pow10((12 + d) as nat) } else { current_additive_increment_in_ticks@ };
            lemma_pow10_le((18 + d) as nat, 56);
            if t > 0 {
                lemma_pow10_le((12 + d) as nat, 50);
                lemma_pow10_adds(6, 50);
                lemma_pow10_positive(50);
                assert(n * dec_frac() * q == (n * q) * dec_frac()) by (nonlinear_arith);
                lemma_mul_div_cancel(n * q, dec_frac());
                assert(n * q <= 9000000 * pow10(50)) by (nonlinear_arith)
                    requires 0 <= n <= 9000000, 0 <= q <= pow10(50);
            } else {
                assert(n == 0);
            }
        }
        let n_dec = match u256_checked_mul(Uint256::from_u128(num_additive_ticks as u128), Uint256::from_u128(DECIMAL_FRACTIONAL)) {
            Ok(v) => Decimal256::new(v),
            Err(_) => { return Err(std_parse_err()); },
        };
        let prod = match n_dec.checked_mul(current_additive_increment_in_ticks) {
            Ok(v) => v,
            Err(e) => { return Err(ContractError::OverflowError(e)); },
        };
        proof {
            let inc = current_additive_increment_in_ticks@;
            assert(n_dec@ == n * dec_frac());
            assert(prod@ == n_dec@ * inc / dec_frac());
            assert(n * dec_frac() * inc == (n * inc) * dec_frac()) by (nonlinear_arith);
            lemma_mul_div_cancel(n * inc, dec_frac());
        }
        match base.checked_add(prod) {
            Ok(v) => {
                assert(prod@ == n * current_additive_increment_in_ticks@);
                assert(v@ == spec_tick_to_price(t));
                v
            },
            Err(e) => { return Err(ContractError::OverflowError(e)); },
        }
    };
    proof { lemma_tick_price_bounds(t); }
    if max_spot_price().lt(&price) || price.lt(&min_spot_price()) {
        return Err(ContractError::PriceBoundError { price });
    }
    Ok(price)
}

/// The cache entry for the power of ten `k`: prices from `10^k` to `10^(k+1)`,
/// in steps of `10^(k-6)`, starting at tick `9,000,000 * k`.
pub open spec fn tick_exp_entry(e: TickExpIndexData, k: int) -> bool {
    &&& e.initial_price@ == pow10((18 + k) as nat)
    &&& e.max_price@ == pow10((19 + k) as nat)
    &&& e.additive_increment_per_tick@ == pow10((12 + k) as nat)
    &&& e.initial_tick == 9000000 * k
}

/// The cache holds the entries for every power of ten from `10^-12` to `10^37`.
pub open spec fn tick_cache_built(m: Map<i64, TickExpIndexData>) -> bool {
    forall|k: i64| -12 <= k <= 37 ==> #[trigger] m.contains_key(k) && tick_exp_entry(m[k], k as int)
}

/// The values of `pow_ten_internal_dec_256` for the exponents of the cache.
proof fn lemma_pow_ten_256_value(e: int)
    requires
        -18 <= e <= 58,
    ensures
        (if e >= 0 { pow10((e + 18) as nat) } else { pow10(36) / pow10((18 - e) as nat) }) == pow10((18 + e) as nat),
{
    if e < 0 {
        lemma_pow10_36_div(-e);
    }
}

/// Fills the cache of price ranges used to convert prices to ticks: one entry
/// per power of ten from `10^-12` to `10^37`, overwriting those keys and
/// leaving every other key as it was.
#[verifier::spinoff_prover]
pub fn build_tick_exp_cache(cache: &mut BTreeMap<i64, TickExpIndexData>) -> (r: Result<(), ContractError>)
    ensures
        r is Ok,
        tick_cache_built(final(cache)@),
        forall|k: i64| !(-12 <= k <= 37) ==> (#[trigger] final(cache)@.contains_key(k) <==> old(cache)@.contains_key(k))
            && (final(cache)@.contains_key(k) ==> final(cache)@[k] == old(cache)@[k]),
{
    broadcast use vstd::std_specs::btree::group_btree_axioms;
    proof {
        lemma_pow10_values();
        lemma_i64_key_order();
    }
    let ghost old_map = cache@;
    let mut max_price = Decimal256::one();
    let mut cur_exp_index: i64 = 0;
    while max_price.lt(&max_spot_price())
        invariant
            0 <= cur_exp_index <= 38,
            max_price@ == pow10((18 + cur_exp_index) as nat),
            forall|k: i64| 0 <= k < cur_exp_index ==> #[trigger] cache@.contains_key(k) && tick_exp_entry(cache@[k], k as int),
            forall|k: i64| !(0 <= k < cur_exp_index) ==> (#[trigger] cache@.contains_key(k) <==> old_map.contains_key(k))
                && (cache@.contains_key(k) ==> cache@[k] == old_map[k]),
        decreases 38 - cur_exp_index,
    {
        proof {
            if cur_exp_index == 38 {
                assert(max_price@ == pow10(56));
            }
            lemma_pow_ten_256_value(cur_exp_index as int);
            lemma_pow_ten_256_value(cur_exp_index + 1);
            lemma_pow_ten_256_value(EXPONENT_AT_PRICE_ONE + cur_exp_index);
        }
        let initial_price = match pow_ten_internal_dec_256(cur_exp_index) {
            Ok(v) => v,
            Err(e) => { return Err(e); },
        };
        let max_price_temp = match pow_ten_internal_dec_256(cur_exp_index + 1) {
            Ok(v) => v,
            Err(e) => { return Err(e); },
        };
        let additive_increment_per_tick = match pow_ten_internal_dec_256(EXPONENT_AT_PRICE_ONE + cur_exp_index) {
            Ok(v) => v,
            Err(e) => { return Err(e); },
        };
        let base_tick_value = match base_tick_value() {
            Ok(v) => v,
            Err(e) => { return Err(e); },
        };
        let initial_tick = match base_tick_value.checked_mul(cur_exp_index) {
            Some(v) => v,
            None => { return Err(ContractError::OverflowError(OverflowError { operation: OverflowOperation::Mul })); },
        };
        let tick_exp_index_data = TickExpIndexData {
            initial_price,
            max_price: max_price_temp,
            additive_increment_per_tick,
            initial_tick,
        };
        assert(tick_exp_entry(tick_exp_index_data, cur_exp_index as int));
        cache.insert(cur_exp_index, tick_exp_index_data);
        assert(cache@[cur_exp_index] == tick_exp_index_data);
        max_price = tick_exp_index_data.max_price;
        cur_exp_index = cur_exp_index + 1;
    }
    proof {
        if cur_exp_index < 38 {
            lemma_pow10_le((18 + cur_exp_index) as nat, 55);
            lemma_pow10_lt_56();
        }
    }
    let ghost mid_map = cache@;
    let mut min_price = Decimal256::one();
    let mut neg_index: i64 = -1;
    while min_spot_price().lt(&min_price)
        invariant
            -13 <= neg_index <= -1,
            min_price@ == pow10((19 + neg_index) as nat),
            forall|k: i64| 0 <= k <= 37 ==> #[trigger] cache@.contains_key(k) && tick_exp_entry(cache@[k], k as int),
            forall|k: i64| neg_index < k <= -1 ==> #[trigger] cache@.contains_key(k) && tick_exp_entry(cache@[k], k as int),
            forall|k: i64| !(neg_index < k <= 37) ==> (#[trigger] cache@.contains_key(k) <==> old_map.contains_key(k))
                && (cache@.contains_key(k) ==> cache@[k] == old_map[k]),
        decreases neg_index + 13,
    {
        proof {
            if neg_index == -13 {
                assert(min_price@ == pow10(6));
            }
            lemma_pow_ten_256_value(neg_index as int);
            lemma_pow_ten_256_value(neg_index + 1);
            lemma_pow_ten_256_value(EXPONENT_AT_PRICE_ONE + neg_index);
        }
        let initial_price = match pow_ten_internal_dec_256(neg_index) {
            Ok(v) => v,
            Err(e) => { return Err(e); },
        };
        let max_price_temp = match pow_ten_internal_dec_256(neg_index + 1) {
            Ok(v) => v,
            Err(e) => { return Err(e); },
        };
        let additive_increment_per_tick = match pow_ten_internal_dec_256(EXPONENT_AT_PRICE_ONE + neg_index) {
            Ok(v) => v,
            Err(e) => { return Err(e); },
        };
        let base_tick_value = match base_tick_value() {
            Ok(v) => v,
            Err(e) => { return Err(e); },
        };
        let initial_tick = match base_tick_value.checked_mul(neg_index) {
            Some(v) => v,
            None => { return Err(ContractError::OverflowError(OverflowError { operation: OverflowOperation::Mul })); },
        };
        let tick_exp_index_data = TickExpIndexData {
            initial_price,
            max_price: max_price_temp,
            additive_increment_per_tick,
            initial_tick,
        };
        assert(initial_price@ == pow10((18 + neg_index) as nat));
        assert(max_price_temp@ == pow10((19 + neg_index) as nat));
        assert(additive_increment_per_tick@ == pow10((12 + neg_index) as nat));
        assert(tick_exp_entry(tick_exp_index_data, neg_index as int));
        cache.insert(neg_index, tick_exp_index_data);
        assert(cache@[neg_index] == tick_exp_index_data);
        min_price = tick_exp_index_data.initial_price;
        neg_index = neg_index - 1;
    }
    proof {
        if neg_index > -13 {
            lemma_pow10_le(7, (19 + neg_index) as nat);
        }
    }
    Ok(())
}

/// 10^55 is below the largest spot price 10^56.
proof fn lemma_pow10_lt_56()
    ensures
        pow10(55) < pow10(56),
{
    lemma_pow10_positive(55);
}

/// `9 * 10^(-EXPONENT_AT_PRICE_ONE)`, the number of ticks per power of ten.
fn base_tick_value() -> (r: Result<i64, ContractError>)
    ensures
        r == Ok::<i64, ContractError>(9000000),
{
    proof { lemma_pow10_values(); }
    let p = match pow_ten_internal_u128(0 - EXPONENT_AT_PRICE_ONE) {
        Ok(v) => v,
        Err(e) => { return Err(e); },
    };
    match 9u128.checked_mul(p) {
        Some(v) => Ok(v as i64),
        None => Err(ContractError::OverflowError(OverflowError { operation: OverflowOperation::Mul })),
    }
}

/// The walk of `verify_tick_exp_cache` over increasing keys from `idx`, where
/// `max` is the last maximum price seen: `Err(k)` names the first missing key.
pub open spec fn cache_up_walk(m: Map<i64, TickExpIndexData>, idx: int, max: int) -> Result<(), i64>
    decreases i64::MAX - idx,
{
    if max >= pow10(56) {
        Ok(())
    } else if idx >= i64::MAX || idx < i64::MIN || !m.contains_key(idx as i64) {
        Err(idx as i64)
    } else {
        cache_up_walk(m, idx + 1, m[idx as i64].max_price@)
    }
}

/// The walk of `verify_tick_exp_cache` over decreasing keys from `idx`, where
/// `min` is the last initial price seen.
pub open spec fn cache_down_walk(m: Map<i64, TickExpIndexData>, idx: int, min: int) -> Result<(), i64>
    decreases idx - i64::MIN,
{
    if min <= pow10(6) {
        Ok(())
    } else if idx <= i64::MIN || idx > i64::MAX || !m.contains_key(idx as i64) {
        Err(idx as i64)
    } else {
        cache_down_walk(m, idx - 1, m[idx as i64].initial_price@)
    }
}

/// Checks that the cache covers the price range: from key 0 upwards until a
/// maximum price reaches 10^38, and from key 0 downwards until an initial
/// price reaches 10^-12, every key must be present; the first missing key is
/// reported. CosmWasm panics where a walk runs past the last `i64` key,
/// which `requires` excludes.
pub fn verify_tick_exp_cache(cache: &BTreeMap<i64, TickExpIndexData>) -> (r: Result<(), ContractError>)
    requires
        cache@.contains_key(i64::MAX) ==> cache_up_walk(cache@, 0, dec_frac()) != Err::<(), i64>(i64::MAX),
        cache@.contains_key(i64::MIN) && cache_up_walk(cache@, 0, dec_frac()) is Ok
            ==> cache_down_walk(cache@, 0, dec_frac()) != Err::<(), i64>(i64::MIN),
    ensures
        r == match cache_up_walk(cache@, 0, dec_frac()) {
            Err(t) => Err::<(), ContractError>(ContractError::TickNotFound { tick: t }),
            Ok(_) => match cache_down_walk(cache@, 0, dec_frac()) {
                Err(t) => Err::<(), ContractError>(ContractError::TickNotFound { tick: t }),
                Ok(_) => Ok::<(), ContractError>(()),
            },
        },
{
    broadcast use vstd::std_specs::btree::group_btree_axioms;
    proof {
        lemma_pow10_values();
        lemma_i64_key_order();
    }
    let mut max_price = Decimal256::one();
    let mut positive_index: i64 = 0;
    let max_spot = max_spot_price();
    while max_price.lt(&max_spot)
        invariant
            0 <= positive_index,
            max_spot@ == pow10(56),
            cache@.contains_key(i64::MAX) ==> cache_up_walk(cache@, 0, dec_frac()) != Err::<(), i64>(i64::MAX),
            cache_up_walk(cache@, 0, dec_frac()) == cache_up_walk(cache@, positive_index as int, max_price@),
        decreases i64::MAX - positive_index,
    {
        let data = match cache.get(&positive_index) {
            Some(v) => *v,
            None => {
                return Err(ContractError::TickNotFound { tick: positive_index });
            },
        };
        max_price = data.max_price;
        positive_index = positive_index + 1;
    }
    let mut min_price = Decimal256::one();
    let mut negative_index: i64 = 0;
    let min_spot = min_spot_price();
    while min_spot.lt(&min_price)
        invariant
            negative_index <= 0,
            min_spot@ == pow10(6),
            cache@.contains_key(i64::MIN) ==> cache_down_walk(cache@, 0, dec_frac()) != Err::<(), i64>(i64::MIN),
            cache_up_walk(cache@, 0, dec_frac()) == Ok::<(), i64>(()),
            cache_down_walk(cache@, 0, dec_frac()) == cache_down_walk(cache@, negative_index as int, min_price@),
        decreases negative_index - i64::MIN,
    {
        let data = match cache.get(&negative_index) {
            Some(v) => *v,
            None => {
                return Err(ContractError::TickNotFound { tick: negative_index });
            },
        };
        min_price = data.initial_price;
        negative_index = negative_index - 1;
    }
    Ok(())
}

/// A cache that holds every power of ten from 10^-12 to 10^37 passes
/// `verify_tick_exp_cache`.
pub proof fn law_built_cache_verifies(m: Map<i64, TickExpIndexData>)
    requires
        tick_cache_built(m),
    ensures
        cache_up_walk(m, 0, dec_frac()) == Ok::<(), i64>(()),
        cache_down_walk(m, 0, dec_frac()) == Ok::<(), i64>(()),
{
    lemma_pow10_values();
    lemma_up_walk_from(m, 0);
    assert(m.contains_key(0i64));
    assert(cache_down_walk(m, 0, dec_frac()) == cache_down_walk(m, -1, pow10(18)));
    lemma_down_walk_from(m, -1);
}

proof fn lemma_up_walk_from(m: Map<i64, TickExpIndexData>, k: int)
    requires
        tick_cache_built(m),
        0 <= k <= 38,
    ensures
        cache_up_walk(m, k, pow10((18 + k) as nat)) == Ok::<(), i64>(()),
    decreases 38 - k,
{
    lemma_pow10_values();
    if k < 38 {
        assert(m.contains_key(k as i64));
        lemma_pow10_le((18 + k) as nat, 55);
        lemma_pow10_lt_56();
        lemma_up_walk_from(m, k + 1);
    }
}

proof fn lemma_down_walk_from(m: Map<i64, TickExpIndexData>, k: int)
    requires
        tick_cache_built(m),
        -13 <= k <= -1,
    ensures
        cache_down_walk(m, k, pow10((19 + k) as nat)) == Ok::<(), i64>(()),
    decreases k + 13,
{
    lemma_pow10_values();
    if k > -13 {
        assert(m.contains_key(k as i64));
        lemma_pow10_le(7, (19 + k) as nat);
        lemma_down_walk_from(m, k - 1);
    }
}

/// Every entry of the cache between `10^-12` and `10^37` that is present
/// spans its power of ten.
pub open spec fn cache_prices_right(m: Map<i64, TickExpIndexData>) -> bool {
    forall|k: i64| -12 <= k <= 37 && #[trigger] m.contains_key(k) ==> {
        &&& m[k].initial_price@ == pow10((18 + k) as nat)
        &&& m[k].max_price@ == pow10((19 + k) as nat)
    }
}

/// The first key from `k` up to 37 that the cache lacks.
pub open spec fn first_missing_up(m: Map<i64, TickExpIndexData>, k: int) -> Option<int>
    decreases 38 - k,
{
    if k > 37 { None } else if !m.contains_key(k as i64) { Some(k) } else { first_missing_up(m, k + 1) }
}

/// The first key from `k` down to -12 that the cache lacks.
pub open spec fn first_missing_down(m: Map<i64, TickExpIndexData>, k: int) -> Option<int>
    decreases k + 13,
{
    if k < -12 { None } else if !m.contains_key(k as i64) { Some(k) } else { first_missing_down(m, k - 1) }
}

proof fn lemma_first_missing_up(m: Map<i64, TickExpIndexData>, k: int)
    requires
        0 <= k <= 38,
    ensures
        first_missing_up(m, k) is None <==> forall|j: i64| k <= j <= 37 ==> #[trigger] m.contains_key(j),
        first_missing_up(m, k) matches Some(j) ==> k <= j <= 37,
    decreases 38 - k,
{
    if k <= 37 {
        lemma_first_missing_up(m, k + 1);
        if m.contains_key(k as i64) {
            assert forall|j: i64| k <= j <= 37 && (forall|i: i64| k + 1 <= i <= 37 ==> #[trigger] m.contains_key(i))
                implies #[trigger] m.contains_key(j) by {
                if j != k {
                    assert(k + 1 <= j);
                }
            }
        } else {
            assert(!m.contains_key(k as i64));
        }
    }
}

proof fn lemma_first_missing_down(m: Map<i64, TickExpIndexData>, k: int)
    requires
        -13 <= k <= -1,
    ensures
        first_missing_down(m, k) is None <==> forall|j: i64| -12 <= j <= k ==> #[trigger] m.contains_key(j),
        first_missing_down(m, k) matches Some(j) ==> -12 <= j <= k,
    decreases k + 13,
{
    if k >= -12 {
        lemma_first_missing_down(m, k - 1);
        if m.contains_key(k as i64) {
            assert forall|j: i64| -12 <= j <= k && (forall|i: i64| -12 <= i <= k - 1 ==> #[trigger] m.contains_key(i))
                implies #[trigger] m.contains_key(j) by {
                if j != k {
                    assert(j <= k - 1);
                }
            }
        } else {
            assert(!m.contains_key(k as i64));
        }
    }
}

proof fn lemma_up_walk_general(m: Map<i64, TickExpIndexData>, k: int)
    requires
        cache_prices_right(m),
        0 <= k <= 38,
    ensures
        cache_up_walk(m, k, pow10((18 + k) as nat)) == match first_missing_up(m, k) {
            None => Ok::<(), i64>(()),
            Some(j) => Err(j as i64),
        },
    decreases 38 - k,
{
    lemma_pow10_values();
    if k < 38 {
        lemma_pow10_le((18 + k) as nat, 55);
        lemma_pow10_lt_56();
        if m.contains_key(k as i64) {
            assert(m[k as i64].max_price@ == pow10((19 + k) as nat));
            assert((18 + (k + 1)) as nat == (19 + k) as nat);
            lemma_up_walk_general(m, k + 1);
        }
    }
}

proof fn lemma_down_walk_general(m: Map<i64, TickExpIndexData>, k: int)
    requires
        cache_prices_right(m),
        -13 <= k <= -1,
    ensures
        cache_down_walk(m, k, pow10((19 + k) as nat)) == match first_missing_down(m, k) {
            None => Ok::<(), i64>(()),
            Some(j) => Err(j as i64),
        },
    decreases k + 13,
{
    lemma_pow10_values();
    if k > -13 {
        lemma_pow10_le(7, (19 + k) as nat);
        if m.contains_key(k as i64) {
            assert(m[k as i64].initial_price@ == pow10((18 + k) as nat));
            assert((19 + (k - 1)) as nat == (18 + k) as nat);
            lemma_down_walk_general(m, k - 1);
        }
    }
}

/// With the entries that are present spanning their powers of ten, the
/// cache check walks up from key 0 and fails at the first key up to 37 that
/// is missing, then walks down from key 0 and fails at the first key down
/// to -12 that is missing; it passes exactly when every key from -12 to 37
/// is present.
pub proof fn law_cache_check_exact(m: Map<i64, TickExpIndexData>)
    requires
        cache_prices_right(m),
    ensures
        cache_up_walk(m, 0, dec_frac()) == match first_missing_up(m, 0) {
            None => Ok::<(), i64>(()),
            Some(j) => Err(j as i64),
        },
        cache_up_walk(m, 0, dec_frac()) is Ok ==> cache_down_walk(m, 0, dec_frac()) == match first_missing_down(m, -1) {
            None => Ok::<(), i64>(()),
            Some(j) => Err(j as i64),
        },
        (cache_up_walk(m, 0, dec_frac()) is Ok && cache_down_walk(m, 0, dec_frac()) is Ok)
            <==> forall|k: i64| -12 <= k <= 37 ==> #[trigger] m.contains_key(k),
{
    lemma_pow10_values();
    lemma_up_walk_general(m, 0);
    lemma_first_missing_up(m, 0);
    lemma_first_missing_down(m, -1);
    if cache_up_walk(m, 0, dec_frac()) is Ok {
        assert(m.contains_key(0i64));
        assert(m[0i64].initial_price@ == pow10(18));
        assert(cache_down_walk(m, 0, dec_frac()) == cache_down_walk(m, -1, pow10(18)));
        lemma_down_walk_general(m, -1);
    }
    if forall|k: i64| -12 <= k <= 37 ==> #[trigger] m.contains_key(k) {
        assert forall|j: i64| 0 <= j <= 37 implies #[trigger] m.contains_key(j) by {
            assert(-12 <= j <= 37);
        }
        assert forall|j: i64| -12 <= j <= -1 implies #[trigger] m.contains_key(j) by {
            assert(-12 <= j <= 37);
        }
    }
    if cache_up_walk(m, 0, dec_frac()) is Ok && cache_down_walk(m, 0, dec_frac()) is Ok {
        assert forall|k: i64| -12 <= k <= 37 implies #[trigger] m.contains_key(k) by {
            if k >= 0 {
                assert(0 <= k <= 37);
            } else {
                assert(-12 <= k <= -1);
            }
        }
    }
}

/// The power of ten whose cache range holds a price above 1, searching up from `k`.
pub open spec fn up_index(price: int, k: int) -> int
    decreases 37 - k,
{
    if k >= 37 || pow10((19 + k) as nat) >= price { k } else { up_index(price, k + 1) }
}

/// The power of ten whose cache range holds a price below 1, searching down from `k`.
pub open spec fn down_index(price: int, k: int) -> int
    decreases k + 12,
{
    if k <= -12 || pow10((18 + k) as nat) <= price { k } else { down_index(price, k - 1) }
}

/// The tick of a price: the first tick of its power-of-ten range plus the
/// number of whole increments above that range's initial price.
pub open spec fn spec_price_to_tick(price: int) -> int {
    if price == dec_frac() {
        0
    } else {
        let k = if price > dec_frac() { up_index(price, 0) } else { down_index(price, -1) };
        9000000 * k + (price - pow10((18 + k) as nat)) / pow10((12 + k) as nat)
    }
}

/// `(a * f / b) / f == a / b` for positive `f` and `b`.
proof fn lemma_div_scaled(a: int, f: int, b: int)
    requires
        a >= 0,
        f > 0,
        b > 0,
    ensures
        (a * f / b) / f == a / b,
{
    vstd::arithmetic::div_mod::lemma_div_denominator(a * f, b, f);
    vstd::arithmetic::div_mod::lemma_div_multiples_vanish_quotient(f, a, b);
    assert(f * a == a * f && f * b == b * f) by (nonlinear_arith);
}

/// The tick of a price, found through the cache of price ranges. A price
/// out of bounds is refused before the cache is read; within bounds, the
/// cache must be the one that `build_tick_exp_cache` writes.
pub fn price_to_tick(cache: &BTreeMap<i64, TickExpIndexData>, price: Decimal256) -> (r: Result<i128, ContractError>)
    requires
        pow10(6) <= price@ <= pow10(56) ==> tick_cache_built(cache@),
    ensures
        price@ > pow10(56) || price@ < pow10(6) ==> r == Err::<i128, ContractError>(ContractError::PriceBoundError { price }),
        pow10(6) <= price@ <= pow10(56) ==> r == Ok::<i128, ContractError>(spec_price_to_tick(price@) as i128)
            && i128::MIN <= spec_price_to_tick(price@) <= i128::MAX,
{
    broadcast use vstd::std_specs::btree::group_btree_axioms;
    proof {
        lemma_pow10_values();
        lemma_i64_key_order();
    }
    if max_spot_price().lt(&price) || price.lt(&min_spot_price()) {
        return Err(ContractError::PriceBoundError { price });
    }
    if price.eq_value(&Decimal256::one()) {
        return Ok(0i128);
    }
    let geo_spacing: TickExpIndexData;
    let ghost k: int;
    if Decimal256::one().lt(&price) {
        let mut index: i64 = 0;
        assert(cache@.contains_key(0i64));
        let mut geo = match cache.get(&index) {
            Some(v) => *v,
            None => { return Err(ContractError::Std(StdError::NotFound { kind: "TickExpIndexData".to_string() })); },
        };
        while geo.max_price.lt(&price)
            invariant
                0 <= index <= 37,
                tick_cache_built(cache@),
                geo == cache@[index],
                pow10(18) < price@ <= pow10(56),
                pow10((18 + index) as nat) < price@,
                up_index(price@, 0) == up_index(price@, index as int),
            decreases 37 - index,
        {
            proof {
                assert(cache@.contains_key(index));
                assert(tick_exp_entry(cache@[index], index as int));
                assert(index < 37);
            }
            index = index + 1;
            assert(cache@.contains_key(index));
            geo = match cache.get(&index) {
                Some(v) => *v,
                None => { return Err(ContractError::Std(StdError::NotFound { kind: "TickExpIndexData".to_string() })); },
            };
        }
        assert(cache@.contains_key(index));
        assert(tick_exp_entry(cache@[index], index as int));
        proof {
            k = index as int;
            lemma_pow10_adds(1, (18 + k) as nat);
            reveal_with_fuel(pow10, 2);
        }
        assert(price@ <= 10 * pow10((18 + k) as nat));
        geo_spacing = geo;
    } else {
        let mut index: i64 = -1;
        assert(cache@.contains_key(-1i64));
        let mut geo = match cache.get(&index) {
            Some(v) => *v,
            None => { return Err(ContractError::Std(StdError::NotFound { kind: "TickExpIndexData".to_string() })); },
        };
        while price.lt(&geo.initial_price)
            invariant
                -12 <= index <= -1,
                tick_cache_built(cache@),
                geo == cache@[index],
                pow10(6) <= price@ < pow10(18),
                price@ < pow10((19 + index) as nat),
                down_index(price@, -1) == down_index(price@, index as int),
            decreases index + 12,
        {
            proof {
                assert(cache@.contains_key(index));
                assert(tick_exp_entry(cache@[index], index as int));
                assert(index > -12);
            }
            index = index - 1;
            assert(cache@.contains_key(index));
            geo = match cache.get(&index) {
                Some(v) => *v,
                None => { return Err(ContractError::Std(StdError::NotFound { kind: "TickExpIndexData".to_string() })); },
            };
        }
        assert(cache@.contains_key(index));
        assert(tick_exp_entry(cache@[index], index as int));
        proof {
            k = index as int;
            lemma_pow10_adds(1, (18 + k) as nat);
            reveal_with_fuel(pow10, 2);
        }
        assert(price@ < 10 * pow10((18 + k) as nat));
        geo_spacing = geo;
    }
    assert(tick_exp_entry(geo_spacing, k));
    proof {
        lemma_pow10_positive((12 + k) as nat);
        lemma_pow10_le((12 + k) as nat, 49);
        lemma_pow10_le((18 + k) as nat, 55);
        lemma_pow10_lt_56();
        lemma_pow10_adds((12 + k) as nat, 6);
        lemma_pow10_adds((12 + k) as nat, 7);
    }
    let price_in_this_exponent = match price.checked_sub(geo_spacing.initial_price) {
        Ok(v) => v,
        Err(e) => { return Err(ContractError::OverflowError(e)); },
    };
    proof {
        let q = pow10((12 + k) as nat);
        let a = price_in_this_exponent@;
        assert(a <= 9 * pow10((18 + k) as nat));
        assert(a * dec_frac() / q <= a * dec_frac()) by (nonlinear_arith)
            requires a >= 0, q >= 1;
        assert(a * dec_frac() <= 9 * pow10(56) * dec_frac()) by (nonlinear_arith)
            requires a <= 9 * pow10((18 + k) as nat), pow10((18 + k) as nat) <= pow10(56), a >= 0;
        assert(a / q <= 9000000) by (nonlinear_arith)
            requires a <= 9 * pow10((18 + k) as nat), pow10((18 + k) as nat) == q * pow10(6), q >= 1, pow10(6) == 1000000;
        lemma_div_scaled(a, dec_frac(), q);
    }
    let ticks_filled_by_current_spacing = price_in_this_exponent.div(geo_spacing.additive_increment_per_tick);
    let ticks_filled_uint_floor = ticks_filled_by_current_spacing.to_uint_floor();
    let ticks_filled_u128 = match ticks_filled_uint_floor.to_u128() {
        Ok(v) => v,
        Err(e) => { return Err(ContractError::ConversionOverflowError(e)); },
    };
    if ticks_filled_u128 > i128::MAX as u128 {
        return Err(ContractError::ConversionOverflowError(crate::math::uint::ConversionOverflowError {}));
    }
    let ticks_filled_int: i128 = ticks_filled_u128 as i128;
    let tick_index: i128 = geo_spacing.initial_tick as i128 + ticks_filled_int;
    Ok(tick_index)
}

/// Maximum price of the cache range for the power of ten `i`.
pub open spec fn range_max(i: int) -> int {
    pow10((19 + i) as nat)
}

/// Initial price of the cache range for the power of ten `i`.
pub open spec fn range_initial(i: int) -> int {
    pow10((18 + i) as nat)
}

/// The upward search stops at the first range whose maximum reaches the price.
proof fn lemma_up_index_stops(p: int, j: int, target: int)
    requires
        0 <= j <= target <= 37,
        forall|i: int| j <= i < target ==> #[trigger] range_max(i) < p,
        pow10((19 + target) as nat) >= p,
    ensures
        up_index(p, j) == target,
    decreases target - j,
{
    if j < target {
        assert(range_max(j) < p);
        lemma_up_index_stops(p, j + 1, target);
    }
}

/// The downward search stops at the first range whose initial price is at most the price.
proof fn lemma_down_index_stops(p: int, j: int, target: int)
    requires
        -12 <= target <= j <= -1,
        forall|i: int| target < i <= j ==> #[trigger] range_initial(i) > p,
        pow10((18 + target) as nat) <= p,
    ensures
        down_index(p, j) == target,
    decreases j - target,
{
    if j > target {
        assert(range_initial(j) > p);
        lemma_down_index_stops(p, j - 1, target);
    }
}

proof fn lemma_pow10_shift(k: int)
    requires
        -12 <= k <= 37,
    ensures
        pow10((18 + k) as nat) == pow10((12 + k) as nat) * 1_000_000,
        pow10((19 + k) as nat) == pow10((12 + k) as nat) * 10_000_000,
{
    lemma_pow10_values();
    lemma_pow10_adds((12 + k) as nat, 6);
    lemma_pow10_adds((12 + k) as nat, 7);
    assert((12 + k) as nat + 6 == (18 + k) as nat);
    assert((12 + k) as nat + 7 == (19 + k) as nat);
}

#[verifier::spinoff_prover]
proof fn lemma_price_formula_full(k: int)
    requires
        -12 <= k <= 37,
    ensures
        spec_tick_to_price(9000000 * (k + 1)) == pow10((18 + k) as nat) + 9000000 * pow10((12 + k) as nat),
{
    lemma_pow10_values();
    lemma_pow10_shift(k);
    let base = pow10((12 + k) as nat);
    let t = 9000000 * (k + 1);
    assert(base * 10_000_000 == base * 1_000_000 + 9000000 * base) by (nonlinear_arith);
    if k + 1 > 0 {
        vstd::arithmetic::div_mod::lemma_fundamental_div_mod_converse(t, 9000000, k + 1, 0);
        assert(tick_delta(t) == k + 1 && tick_rem(t) == 0);
        assert((18 + tick_delta(t)) as nat == (19 + k) as nat);
    } else if k + 1 < 0 {
        vstd::arithmetic::div_mod::lemma_fundamental_div_mod_converse(-t, 9000000, -(k + 1), 0);
        assert(tick_delta(t) == k + 1 && tick_rem(t) == 0);
        assert((18 + tick_delta(t)) as nat == (19 + k) as nat);
    }
}

#[verifier::spinoff_prover]
proof fn lemma_price_formula_up(k: int, n: int)
    requires
        0 <= k <= 37,
        0 <= n < 9000000,
    ensures
        spec_tick_to_price(9000000 * k + n) == pow10((18 + k) as nat) + n * pow10((12 + k) as nat),
{
    lemma_pow10_values();
    let t = 9000000 * k + n;
    if t != 0 {
        vstd::arithmetic::div_mod::lemma_fundamental_div_mod_converse(t, 9000000, k, n);
        assert(tick_delta(t) == k && tick_rem(t) == n);
    } else {
        assert(n * pow10((12 + k) as nat) == 0) by (nonlinear_arith) requires n == 0;
    }
}

#[verifier::spinoff_prover]
proof fn lemma_price_formula_down(k: int, n: int)
    requires
        -12 <= k <= -1,
        0 <= n < 9000000,
    ensures
        spec_tick_to_price(9000000 * k + n) == pow10((18 + k) as nat) + n * pow10((12 + k) as nat),
{
    lemma_pow10_shift(k);
    let base = pow10((12 + k) as nat);
    let t = 9000000 * k + n;
    if n == 0 {
        vstd::arithmetic::div_mod::lemma_fundamental_div_mod_converse(-t, 9000000, -k, 0);
        assert(tick_delta(t) == k && tick_rem(t) == 0);
        assert(n * base == 0) by (nonlinear_arith) requires n == 0;
    } else {
        assert(-t == (-(k + 1)) * 9000000 + (9000000 - n));
        vstd::arithmetic::div_mod::lemma_fundamental_div_mod_converse(-t, 9000000, -(k + 1), 9000000 - n);
        assert(tick_delta(t) == k + 1 && tick_rem(t) == n - 9000000);
        assert((11 + (k + 1)) as nat == (12 + k) as nat);
        assert((18 + (k + 1)) as nat == (19 + k) as nat);
        assert(base * 10_000_000 + (n - 9000000) * base == base * 1_000_000 + n * base) by (nonlinear_arith);
    }
}

/// The price at the tick `n` increments into the range of `10^k`.
proof fn lemma_price_formula(k: int, n: int)
    requires
        -12 <= k <= 37,
        0 <= n <= 9000000,
    ensures
        spec_tick_to_price(9000000 * k + n) == pow10((18 + k) as nat) + n * pow10((12 + k) as nat),
{
    if n == 9000000 {
        lemma_price_formula_full(k);
        assert(9000000 * k + n == 9000000 * (k + 1));
    } else if k >= 0 {
        lemma_price_formula_up(k, n);
    } else {
        lemma_price_formula_down(k, n);
    }
}

proof fn lemma_up_index_bounds(p: int, j: int)
    requires
        0 <= j <= 37,
        pow10((18 + j) as nat) < p <= pow10(56),
    ensures
        j <= up_index(p, j) <= 37,
        pow10((18 + up_index(p, j)) as nat) < p <= pow10((19 + up_index(p, j)) as nat),
    decreases 37 - j,
{
    if j >= 37 || pow10((19 + j) as nat) >= p {
    } else {
        assert((18 + (j + 1)) as nat == (19 + j) as nat);
        lemma_up_index_bounds(p, j + 1);
    }
}

proof fn lemma_down_index_bounds(p: int, j: int)
    requires
        -12 <= j <= -1,
        pow10(6) <= p < pow10((19 + j) as nat),
    ensures
        -12 <= down_index(p, j) <= j,
        pow10((18 + down_index(p, j)) as nat) <= p < pow10((19 + down_index(p, j)) as nat),
    decreases j + 12,
{
    if j <= -12 || pow10((18 + j) as nat) <= p {
    } else {
        assert((19 + (j - 1)) as nat == (18 + j) as nat);
        lemma_down_index_bounds(p, j - 1);
    }
}

/// The tick of a price within bounds is the greatest initialized tick whose
/// price does not exceed it.
pub proof fn law_price_to_tick_greatest(p: int)
    requires
        pow10(6) <= p <= pow10(56),
    ensures
        valid_tick(spec_price_to_tick(p)),
        spec_tick_to_price(spec_price_to_tick(p)) <= p,
        spec_price_to_tick(p) == MAX_TICK || p < spec_tick_to_price(spec_price_to_tick(p) + 1),
{
    lemma_pow10_values();
    let t = spec_price_to_tick(p);
    if p == dec_frac() {
        lemma_price_formula(0, 1);
        lemma_pow10_positive(12);
        return;
    }
    let k = if p > dec_frac() { up_index(p, 0) } else { down_index(p, -1) };
    if p > dec_frac() {
        lemma_up_index_bounds(p, 0);
    } else {
        lemma_down_index_bounds(p, -1);
    }
    let b = pow10((18 + k) as nat);
    let d = pow10((12 + k) as nat);
    lemma_pow10_positive((12 + k) as nat);
    lemma_pow10_adds((12 + k) as nat, 6);
    lemma_pow10_adds((12 + k) as nat, 7);
    assert((12 + k) as nat + 6 == (18 + k) as nat);
    assert((12 + k) as nat + 7 == (19 + k) as nat);
    assert(b == d * 1_000_000);
    assert(pow10((19 + k) as nat) == d * 10_000_000);
    let n = (p - b) / d;
    vstd::arithmetic::div_mod::lemma_fundamental_div_mod(p - b, d);
    vstd::arithmetic::div_mod::lemma_mod_bound(p - b, d);
    let rem = (p - b) % d;
    assert(p - b == d * n + rem);
    assert(t == 9000000 * k + n);
    assert(0 <= n <= 9000000) by (nonlinear_arith)
        requires p - b == d * n + rem, 0 <= rem < d, 0 <= p - b <= d * 9000000, d >= 1;
    assert(p < pow10((19 + k) as nat) ==> n < 9000000) by (nonlinear_arith)
        requires p - b == d * n + rem, 0 <= rem < d, b == d * 1_000_000, pow10((19 + k) as nat) == d * 10_000_000, d >= 1;
    lemma_price_formula(k, n);
    assert(n * d <= p - b) by (nonlinear_arith) requires p - b == d * n + rem, 0 <= rem;
    assert(valid_tick(t));
    if t != MAX_TICK {
        if n < 9000000 {
            lemma_price_formula(k, n + 1);
            assert((n + 1) * d > p - b) by (nonlinear_arith) requires p - b == d * n + rem, rem < d;
        } else {
            assert(k < 37);
            lemma_price_formula(k + 1, 1);
            assert(9000000 * (k + 1) + 1 == t + 1);
            lemma_pow10_positive((12 + (k + 1)) as nat);
            assert(9000000 * d == p - b) by (nonlinear_arith)
                requires p - b == d * n + rem, n == 9000000, 0 <= rem < d, p <= d * 10_000_000, b == d * 1_000_000;
            assert((18 + (k + 1)) as nat == (19 + k) as nat);
        }
    }
}

/// The price one tick up is higher.
proof fn lemma_tick_price_step(t: int)
    requires
        valid_tick(t),
        valid_tick(t + 1),
    ensures
        spec_tick_to_price(t) < spec_tick_to_price(t + 1),
{
    let k = t / 9000000;
    let n = t % 9000000;
    vstd::arithmetic::div_mod::lemma_fundamental_div_mod(t, 9000000);
    assert(-12 <= k <= 37);
    lemma_price_formula(k, n);
    lemma_price_formula(k, n + 1);
    lemma_pow10_positive((12 + k) as nat);
    assert(9000000 * k + n + 1 == t + 1);
    let d = pow10((12 + k) as nat);
    assert((n + 1) * d == n * d + d) by (nonlinear_arith);
}

/// The price grows strictly with the tick over the initialized ticks.
pub proof fn law_tick_price_increasing(a: int, b: int)
    requires
        valid_tick(a),
        valid_tick(b),
        a < b,
    ensures
        spec_tick_to_price(a) < spec_tick_to_price(b),
    decreases b - a,
{
    lemma_tick_price_step(b - 1);
    if a < b - 1 {
        law_tick_price_increasing(a, b - 1);
    }
}

/// Converting a valid tick to its price and the price back to a tick gives the
/// tick again: `price_to_tick(tick_to_price(t)) == t` for every initialized tick.
pub proof fn law_tick_price_roundtrip(t: int)
    requires
        valid_tick(t),
    ensures
        spec_price_to_tick(spec_tick_to_price(t)) == t,
{
    lemma_pow10_values();
    let d = tick_delta(t);
    let n = tick_rem(t);
    let p = spec_tick_to_price(t);
    if t == 0 {
        return;
    }
    if t > 0 {
        assert(0 <= d <= 38 && 0 <= n < 9000000);
        let q = pow10((12 + d) as nat);
        lemma_pow10_adds(6, (12 + d) as nat);
        lemma_pow10_positive((12 + d) as nat);
        lemma_pow10_le(12, (12 + d) as nat);
        assert(p == pow10((18 + d) as nat) + n * q);
        if n > 0 {
            assert(d <= 37);
            assert(p > pow10((18 + d) as nat)) by (nonlinear_arith) requires p == pow10((18 + d) as nat) + n * q, n > 0, q >= 1;
            lemma_pow10_le(18, (18 + d) as nat);
            lemma_pow10_adds(7, (12 + d) as nat);
            assert(p <= pow10((19 + d) as nat)) by (nonlinear_arith)
                requires p == q * 1_000_000 + n * q, n < 9000000, q >= 1, pow10((19 + d) as nat) == 10_000_000 * q;
            assert forall|i: int| 0 <= i < d implies #[trigger] range_max(i) < p by {
                lemma_pow10_le((19 + i) as nat, (18 + d) as nat);
            }
            lemma_up_index_stops(p, 0, d);
            assert((p - pow10((18 + d) as nat)) / q == n) by {
                lemma_mul_div_cancel(n, q);
            }
        } else {
            assert(d >= 1);
            assert(n == 0);
            assert(n * q == 0) by (nonlinear_arith) requires n == 0;
            let q2 = pow10((11 + d) as nat);
            lemma_pow10_adds(6, (11 + d) as nat);
            lemma_pow10_adds(7, (11 + d) as nat);
            lemma_pow10_positive((11 + d) as nat);
            assert(p == pow10((18 + d) as nat));
            lemma_pow10_le(19, (18 + d) as nat);
            assert forall|i: int| 0 <= i < d - 1 implies #[trigger] range_max(i) < p by {
                lemma_pow10_le((19 + i) as nat, (17 + d) as nat);
                lemma_pow10_positive((17 + d) as nat);
                assert(pow10((18 + d) as nat) == 10 * pow10((17 + d) as nat));
            }
            lemma_up_index_stops(p, 0, d - 1);
            assert(p - pow10((17 + d) as nat) == 9_000_000 * q2) by (nonlinear_arith)
                requires p == 10_000_000 * q2, pow10((17 + d) as nat) == 1_000_000 * q2;
            lemma_mul_div_cancel(9_000_000, q2);
        }
    } else {
        assert(-12 <= d <= 0 && -9000000 < n <= 0);
        if n == 0 {
            assert(d <= -1);
            assert(p == pow10((18 + d) as nat));
            lemma_pow10_le((18 + d) as nat, 17);
            lemma_pow10_lt(17, 18);
            assert forall|i: int| d < i <= -1 implies #[trigger] range_initial(i) > p by {
                lemma_pow10_lt((18 + d) as nat, (18 + i) as nat);
                lemma_pow10_positive((18 + d) as nat);
            }
            lemma_down_index_stops(p, -1, d);
            lemma_pow10_positive((12 + d) as nat);
        } else {
            assert(d >= -11);
            let q = pow10((11 + d) as nat);
            lemma_pow10_adds(7, (11 + d) as nat);
            lemma_pow10_adds(6, (11 + d) as nat);
            lemma_pow10_positive((11 + d) as nat);
            assert(p == q * (10_000_000 + n)) by (nonlinear_arith)
                requires p == pow10((18 + d) as nat) + n * q, pow10((18 + d) as nat) == 10_000_000 * q;
            assert(p < pow10((18 + d) as nat)) by (nonlinear_arith)
                requires p == q * (10_000_000 + n), n < 0, q >= 1, pow10((18 + d) as nat) == 10_000_000 * q;
            assert(p >= pow10((17 + d) as nat)) by (nonlinear_arith)
                requires p == q * (10_000_000 + n), n > -9000000, q >= 1, pow10((17 + d) as nat) == 1_000_000 * q;
            lemma_pow10_le((18 + d) as nat, 18);
            assert forall|i: int| d - 1 < i <= -1 implies #[trigger] range_initial(i) > p by {
                lemma_pow10_le((18 + d) as nat, (18 + i) as nat);
            }
            lemma_down_index_stops(p, -1, d - 1);
            assert(p - pow10((17 + d) as nat) == (9_000_000 + n) * q) by (nonlinear_arith)
                requires p == q * (10_000_000 + n), pow10((17 + d) as nat) == 1_000_000 * q;
            lemma_mul_div_cancel(9_000_000 + n, q);
        }
    }
}

} // verus!
