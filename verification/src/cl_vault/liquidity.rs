use vstd::prelude::*;
use crate::cl_vault::error::{is_generic_err, ContractError, StdError};
use crate::cl_vault::helpers::PositionRatio;
use crate::math::decimal::{dec_frac, Decimal, Decimal256};
use crate::math::uint::{
    pow2_128, pow2_256, pow2_512, u256_checked_div, u256_checked_mul, u512_checked_div,
    u512_checked_mul, ConversionOverflowError, DivideByZeroError, OverflowError, OverflowOperation,
    Uint256, Uint512,
};

verus! {

/// The smaller of two values.
pub open spec fn lo_of(a: int, b: int) -> int {
    if a > b { b } else { a }
}

/// The larger of two values.
pub open spec fn hi_of(a: int, b: int) -> int {
    if a > b { a } else { b }
}

/// `|a - b|`.
pub fn abs_diff(a: Uint256, b: Uint256) -> (r: Uint256)
    ensures
        r@ == hi_of(a@, b@) - lo_of(a@, b@),
{
    if b.lt(&a) {
        match a.checked_sub(&b) {
            Ok(v) => v,
            Err(_) => Uint256::zero(),
        }
    } else {
        match b.checked_sub(&a) {
            Ok(v) => v,
            Err(_) => Uint256::zero(),
        }
    }
}

/// The liquidity that `amount` of token0 gives between two square-root
/// prices, in atomic units: `amount * lo * hi / (hi - lo)` over 10^36,
/// computed in 512 bits, where `lo` and `hi` are the two prices in order.
pub open spec fn liquidity0_value(amount: int, a: int, b: int) -> int {
    amount * lo_of(a, b) * hi_of(a, b) / (hi_of(a, b) - lo_of(a, b)) / dec_frac()
}

/// The 512-bit core shared by both versions of `liquidity0`.
fn liquidity0_atomics(amount: Uint256, a: Uint256, b: Uint256) -> (r: Result<Uint256, ContractError>)
    ensures
        if hi_of(a@, b@) == lo_of(a@, b@) {
            r is Err && is_generic_err(r->Err_0, "liquidity0 diff is zero"@)
        } else if amount@ * (lo_of(a@, b@) * hi_of(a@, b@)) >= pow2_512() {
            r == Err::<Uint256, ContractError>(ContractError::OverflowError(OverflowError { operation: OverflowOperation::Mul }))
        } else if amount@ * (lo_of(a@, b@) * hi_of(a@, b@)) / (hi_of(a@, b@) - lo_of(a@, b@)) >= pow2_256() {
            r == Err::<Uint256, ContractError>(ContractError::Overflow)
        } else {
            r is Ok && r->Ok_0@ == liquidity0_value(amount@, a@, b@)
        },
{
    let (lo, hi) = if b.lt(&a) { (b, a) } else { (a, b) };
    let lo512 = Uint512::from_uint256(lo);
    let hi512 = Uint512::from_uint256(hi);
    let amount512 = Uint512::from_uint256(amount);
    proof {
        crate::math::uint::lemma_uint256_range(lo);
        crate::math::uint::lemma_uint256_range(hi);
        crate::math::uint::lemma_uint256_range(amount);
        assert(lo@ * hi@ < pow2_512()) by (nonlinear_arith)
            requires 0 <= lo@ < pow2_256(), 0 <= hi@ < pow2_256(), pow2_512() == pow2_256() * pow2_256();
    }
    let product = match u512_checked_mul(lo512, hi512) {
        Ok(v) => v,
        Err(e) => { return Err(ContractError::OverflowError(e)); },
    };
    let diff = match hi.checked_sub(&lo) {
        Ok(v) => v,
        Err(e) => { return Err(ContractError::OverflowError(e)); },
    };
    if diff.is_zero() {
        return Err(ContractError::Std(StdError::GenericErr { msg: "liquidity0 diff is zero".to_string() }));
    }
    let full = match u512_checked_mul(amount512, product) {
        Ok(v) => v,
        Err(e) => { return Err(ContractError::OverflowError(e)); },
    };
    let q = match u512_checked_div(full, Uint512::from_uint256(diff)) {
        Ok(v) => v,
        Err(e) => { return Err(ContractError::DivideByZeroError(e)); },
    };
    proof { crate::math::uint::lemma_uint512_range(full); }
    assert(lo@ == lo_of(a@, b@) && hi@ == hi_of(a@, b@));
    assert(product@ == lo@ * hi@);
    assert(full@ == amount@ * (lo@ * hi@));
    assert(diff@ == hi@ - lo@);
    assert(q@ == amount@ * (lo@ * hi@) / (hi@ - lo@));
    let low = match q.to_uint256() {
        Ok(v) => v,
        Err(_) => {
            assert(hi_of(a@, b@) != lo_of(a@, b@));
            assert(amount@ * (lo_of(a@, b@) * hi_of(a@, b@)) < pow2_512());
            assert(amount@ * (lo_of(a@, b@) * hi_of(a@, b@)) / (hi_of(a@, b@) - lo_of(a@, b@)) >= pow2_256());
            return Err(ContractError::Overflow);
        },
    };
    proof {
        assert(amount@ * lo@ * hi@ == amount@ * (lo@ * hi@)) by (nonlinear_arith);
        crate::math::decimal::lemma_pow10_18();
    }
    match u256_checked_div(low, Uint256::from_u128(1_000_000_000_000_000_000u128)) {
        Ok(v) => Ok(v),
        Err(e) => Err(ContractError::DivideByZeroError(e)),
    }
}

/// The liquidity gained from adding `amount` of token0 between two
/// square-root prices, in either order; equal prices are refused.
pub fn _liquidity0(amount: Decimal256, sqrt_price_a: Decimal256, sqrt_price_b: Decimal256)
    -> (r: Result<Decimal256, ContractError>)
    ensures
        ({
            let (x, a, b) = (amount@, sqrt_price_a@, sqrt_price_b@);
            if hi_of(a, b) == lo_of(a, b) {
                r is Err && is_generic_err(r->Err_0, "liquidity0 diff is zero"@)
            } else if x * (lo_of(a, b) * hi_of(a, b)) >= pow2_512() {
                r == Err::<Decimal256, ContractError>(ContractError::OverflowError(OverflowError { operation: OverflowOperation::Mul }))
            } else if x * (lo_of(a, b) * hi_of(a, b)) / (hi_of(a, b) - lo_of(a, b)) >= pow2_256() {
                r == Err::<Decimal256, ContractError>(ContractError::Overflow)
            } else {
                r is Ok && r->Ok_0@ == liquidity0_value(x, a, b)
            }
        }),
{
    match liquidity0_atomics(amount.atomics(), sqrt_price_a.atomics(), sqrt_price_b.atomics()) {
        Ok(v) => Ok(Decimal256::new(v)),
        Err(e) => Err(e),
    }
}

/// The liquidity gained from adding `amount` of token0, for decimals of 128
/// bits; a result beyond them is a conversion overflow.
pub fn liquidity0(amount: Decimal, sqrt_price_a: Decimal, sqrt_price_b: Decimal)
    -> (r: Result<Decimal, ContractError>)
    ensures
        ({
            let (x, a, b) = (amount@, sqrt_price_a@, sqrt_price_b@);
            if hi_of(a, b) == lo_of(a, b) {
                r is Err && is_generic_err(r->Err_0, "liquidity0 diff is zero"@)
            } else if x * (lo_of(a, b) * hi_of(a, b)) >= pow2_512() {
                r == Err::<Decimal, ContractError>(ContractError::OverflowError(OverflowError { operation: OverflowOperation::Mul }))
            } else if x * (lo_of(a, b) * hi_of(a, b)) / (hi_of(a, b) - lo_of(a, b)) >= pow2_256() {
                r == Err::<Decimal, ContractError>(ContractError::Overflow)
            } else if liquidity0_value(x, a, b) >= pow2_128() {
                r == Err::<Decimal, ContractError>(ContractError::ConversionOverflowError(ConversionOverflowError {}))
            } else {
                r is Ok && r->Ok_0@ == liquidity0_value(x, a, b)
            }
        }),
{
    let v = match liquidity0_atomics(Uint256::from_u128(amount.atomics()), Uint256::from_u128(sqrt_price_a.atomics()),
        Uint256::from_u128(sqrt_price_b.atomics())) {
        Ok(v) => v,
        Err(e) => { return Err(e); },
    };
    match v.to_u128() {
        Ok(a) => Ok(Decimal::new(a)),
        Err(e) => Err(ContractError::ConversionOverflowError(e)),
    }
}

/// The liquidity gained from adding `amount` of token1 between two
/// square-root prices, in either order: `amount / (hi - lo)` as a decimal;
/// equal prices are refused.
pub fn _liquidity1(amount: Decimal256, sqrt_price_a: Decimal256, sqrt_price_b: Decimal256)
    -> (r: Result<Decimal256, ContractError>)
    ensures
        ({
            let (x, a, b) = (amount@, sqrt_price_a@, sqrt_price_b@);
            let d = hi_of(a, b) - lo_of(a, b);
            if d == 0 {
                r is Err && is_generic_err(r->Err_0, "liquidity1 diff is zero"@)
            } else if x * dec_frac() / d >= pow2_256() {
                r == Err::<Decimal256, ContractError>(ContractError::MultiplyRatioError(crate::math::uint::CheckedFromRatioError::Overflow))
            } else {
                r is Ok && r->Ok_0@ == x * dec_frac() / d
            }
        }),
{
    let (lo, hi) = if sqrt_price_b.lt(&sqrt_price_a) { (sqrt_price_b, sqrt_price_a) } else { (sqrt_price_a, sqrt_price_b) };
    let diff = match hi.checked_sub(lo) {
        Ok(v) => v,
        Err(_) => { return Err(ContractError::Std(StdError::GenericErr { msg: "Cannot Sub".to_string() })); },
    };
    if diff.is_zero() {
        return Err(ContractError::Std(StdError::GenericErr { msg: "liquidity1 diff is zero".to_string() }));
    }
    match amount.checked_div(diff) {
        Ok(v) => Ok(v),
        Err(e) => Err(ContractError::MultiplyRatioError(e)),
    }
}

/// The liquidity gained from adding `amount` of token1, for decimals of 128 bits.
pub fn liquidity1(amount: Decimal, sqrt_price_a: Decimal, sqrt_price_b: Decimal)
    -> (r: Result<Decimal, ContractError>)
    ensures
        ({
            let (x, a, b) = (amount@, sqrt_price_a@, sqrt_price_b@);
            let d = hi_of(a, b) - lo_of(a, b);
            if d == 0 {
                r is Err && is_generic_err(r->Err_0, "liquidity1 diff is zero"@)
            } else if x * dec_frac() / d >= pow2_128() {
                r == Err::<Decimal, ContractError>(ContractError::MultiplyRatioError(crate::math::uint::CheckedFromRatioError::Overflow))
            } else {
                r is Ok && r->Ok_0@ == x * dec_frac() / d
            }
        }),
{
    let (lo, hi) = if sqrt_price_b.lt(&sqrt_price_a) { (sqrt_price_b, sqrt_price_a) } else { (sqrt_price_a, sqrt_price_b) };
    let diff = match hi.checked_sub(lo) {
        Ok(v) => v,
        Err(_) => { return Err(ContractError::Std(StdError::GenericErr { msg: "Cannot Sub".to_string() })); },
    };
    if diff.is_zero() {
        return Err(ContractError::Std(StdError::GenericErr { msg: "liquidity1 diff is zero".to_string() }));
    }
    match amount.checked_div(diff) {
        Ok(v) => Ok(v),
        Err(e) => Err(ContractError::MultiplyRatioError(e)),
    }
}

/// The amount of token0 that `liquidity` holds between two square-root
/// prices, in either order: `liquidity * (hi - lo) / (lo * hi)` on atomic
/// units, rounded down; with the errors of each 256-bit step.
pub fn asset0(liquidity: Decimal256, sqrt_price_a: Decimal256, sqrt_price_b: Decimal256)
    -> (r: Result<u128, ContractError>)
    ensures
        ({
            let (l, a, b) = (liquidity@, sqrt_price_a@, sqrt_price_b@);
            let (lo, hi) = (lo_of(a, b), hi_of(a, b));
            if hi == lo {
                r is Err && is_generic_err(r->Err_0, "liquidity0 diff is zero"@)
            } else if lo * hi >= pow2_256() || l * (hi - lo) >= pow2_256() {
                r == Err::<u128, ContractError>(ContractError::OverflowError(OverflowError { operation: OverflowOperation::Mul }))
            } else if lo * hi == 0 {
                r == Err::<u128, ContractError>(ContractError::DivideByZeroError(DivideByZeroError {}))
            } else if l * (hi - lo) / (lo * hi) >= pow2_128() {
                r == Err::<u128, ContractError>(ContractError::ConversionOverflowError(ConversionOverflowError {}))
            } else {
                r == Ok::<u128, ContractError>((l * (hi - lo) / (lo * hi)) as u128)
            }
        }),
{
    let l = liquidity.atomics();
    let (lo, hi) = if sqrt_price_b.lt(&sqrt_price_a) {
        (sqrt_price_b.atomics(), sqrt_price_a.atomics())
    } else {
        (sqrt_price_a.atomics(), sqrt_price_b.atomics())
    };
    let diff = match hi.checked_sub(&lo) {
        Ok(v) => v,
        Err(e) => { return Err(ContractError::OverflowError(e)); },
    };
    if diff.is_zero() {
        return Err(ContractError::Std(StdError::GenericErr { msg: "liquidity0 diff is zero".to_string() }));
    }
    let product = match u256_checked_mul(lo, hi) {
        Ok(v) => v,
        Err(e) => { return Err(ContractError::OverflowError(e)); },
    };
    let scaled = match u256_checked_mul(l, diff) {
        Ok(v) => v,
        Err(e) => { return Err(ContractError::OverflowError(e)); },
    };
    let total = match u256_checked_div(scaled, product) {
        Ok(v) => v,
        Err(e) => { return Err(ContractError::DivideByZeroError(e)); },
    };
    match total.to_u128() {
        Ok(v) => Ok(v),
        Err(e) => Err(ContractError::ConversionOverflowError(e)),
    }
}

/// The amount of token1 that `liquidity` holds between two square-root
/// prices, in either order: `liquidity / (hi - lo)` on atomic units,
/// rounded down.
pub fn asset1(liquidity: Decimal256, sqrt_price_a: Decimal256, sqrt_price_b: Decimal256)
    -> (r: Result<u128, ContractError>)
    ensures
        ({
            let (l, a, b) = (liquidity@, sqrt_price_a@, sqrt_price_b@);
            let (lo, hi) = (lo_of(a, b), hi_of(a, b));
            if hi == lo {
                r is Err && is_generic_err(r->Err_0, "liquidity0 diff is zero"@)
            } else if l / (hi - lo) >= pow2_128() {
                r == Err::<u128, ContractError>(ContractError::ConversionOverflowError(ConversionOverflowError {}))
            } else {
                r == Ok::<u128, ContractError>((l / (hi - lo)) as u128)
            }
        }),
{
    let l = liquidity.atomics();
    let (lo, hi) = if sqrt_price_b.lt(&sqrt_price_a) {
        (sqrt_price_b.atomics(), sqrt_price_a.atomics())
    } else {
        (sqrt_price_a.atomics(), sqrt_price_b.atomics())
    };
    let diff = match hi.checked_sub(&lo) {
        Ok(v) => v,
        Err(e) => { return Err(ContractError::OverflowError(e)); },
    };
    if diff.is_zero() {
        return Err(ContractError::Std(StdError::GenericErr { msg: "liquidity0 diff is zero".to_string() }));
    }
    let total = match u256_checked_div(l, diff) {
        Ok(v) => v,
        Err(e) => { return Err(ContractError::DivideByZeroError(e)); },
    };
    match total.to_u128() {
        Ok(v) => Ok(v),
        Err(e) => Err(ContractError::ConversionOverflowError(e)),
    }
}

/// The ratio of the two tokens that a position between two square-root
/// prices needs at the current one: `|upper - current| * |lower - current|`
/// against `current * upper`, on atomic units.
pub fn get_position_ratio(sqrt_price_lower: Decimal256, sqrt_price_current: Decimal256, sqrt_price_upper: Decimal256)
    -> (r: Result<PositionRatio, ContractError>)
    ensures
        ({
            let (lo, cur, up) = (sqrt_price_lower@, sqrt_price_current@, sqrt_price_upper@);
            let du = hi_of(up, cur) - lo_of(up, cur);
            let dl = hi_of(lo, cur) - lo_of(lo, cur);
            if cur * up >= pow2_256() {
                r == Err::<PositionRatio, ContractError>(ContractError::OverflowError(OverflowError { operation: OverflowOperation::Mul }))
            } else if du == 0 || dl == 0 {
                r is Err && is_generic_err(r->Err_0, "liquidity0 diff is zero"@)
            } else if du * dl >= pow2_256() {
                r == Err::<PositionRatio, ContractError>(ContractError::OverflowError(OverflowError { operation: OverflowOperation::Mul }))
            } else if du * dl >= pow2_128() || cur * up >= pow2_128() {
                r == Err::<PositionRatio, ContractError>(ContractError::ConversionOverflowError(ConversionOverflowError {}))
            } else {
                r == Ok::<PositionRatio, ContractError>(PositionRatio { asset0: (du * dl) as u128, asset1: (cur * up) as u128 })
            }
        }),
{
    let lower = sqrt_price_lower.atomics();
    let current = sqrt_price_current.atomics();
    let upper = sqrt_price_upper.atomics();
    let diff_upper = abs_diff(upper, current);
    let diff_lower = abs_diff(lower, current);
    let prod_upper = match u256_checked_mul(current, upper) {
        Ok(v) => v,
        Err(e) => { return Err(ContractError::OverflowError(e)); },
    };
    if diff_upper.is_zero() || diff_lower.is_zero() {
        return Err(ContractError::Std(StdError::GenericErr { msg: "liquidity0 diff is zero".to_string() }));
    }
    let numerator = match u256_checked_mul(diff_upper, diff_lower) {
        Ok(v) => v,
        Err(e) => { return Err(ContractError::OverflowError(e)); },
    };
    let a0 = match numerator.to_u128() {
        Ok(v) => v,
        Err(e) => { return Err(ContractError::ConversionOverflowError(e)); },
    };
    let a1 = match prod_upper.to_u128() {
        Ok(v) => v,
        Err(e) => { return Err(ContractError::ConversionOverflowError(e)); },
    };
    Ok(PositionRatio::new(a0, a1))
}

/// The amount of token0 between two square-root prices, in either order:
/// `liq * (hi - lo) / (lo * hi)` in decimal arithmetic, each product and
/// quotient rounded down. CosmWasm panics where the product `liq * (hi - lo)`
/// overflows or the quotient overflows or divides by zero, which `requires`
/// excludes.
pub fn calc_amount0_delta(liq: Decimal256, sqrt_price_a: Decimal256, sqrt_price_b: Decimal256)
    -> (r: Result<Decimal256, ContractError>)
    requires
        ({
            let (lo, hi) = (lo_of(sqrt_price_a@, sqrt_price_b@), hi_of(sqrt_price_a@, sqrt_price_b@));
            lo * hi / dec_frac() < pow2_256() ==> {
                &&& liq@ * (hi - lo) / dec_frac() < pow2_256()
                &&& lo * hi / dec_frac() != 0
                &&& (liq@ * (hi - lo) / dec_frac()) * dec_frac() / (lo * hi / dec_frac()) < pow2_256()
            }
        }),
    ensures
        ({
            let (lo, hi) = (lo_of(sqrt_price_a@, sqrt_price_b@), hi_of(sqrt_price_a@, sqrt_price_b@));
            if lo * hi / dec_frac() >= pow2_256() {
                r == Err::<Decimal256, ContractError>(ContractError::OverflowError(OverflowError { operation: OverflowOperation::Mul }))
            } else {
                r is Ok && r->Ok_0@ == (liq@ * (hi - lo) / dec_frac()) * dec_frac() / (lo * hi / dec_frac())
            }
        }),
{
    let (lo, hi) = if sqrt_price_b.lt(&sqrt_price_a) { (sqrt_price_b, sqrt_price_a) } else { (sqrt_price_a, sqrt_price_b) };
    let diff = match hi.checked_sub(lo) {
        Ok(v) => v,
        Err(e) => { return Err(ContractError::OverflowError(e)); },
    };
    let denom = match lo.checked_mul(hi) {
        Ok(v) => v,
        Err(e) => { return Err(ContractError::OverflowError(e)); },
    };
    let product = match liq.checked_mul(diff) {
        Ok(v) => v,
        Err(e) => { return Err(ContractError::OverflowError(e)); },
    };
    Ok(product.div(denom))
}

/// The amount of token1 between two square-root prices, in either order:
/// `liq * (hi - lo)` as a decimal, rounded down, or up to a whole number
/// when `round_up`. CosmWasm panics where the product or the rounding up
/// overflows, which `requires` excludes.
pub fn calc_amount1_delta(liq: Decimal, sqrt_price_a: Decimal, sqrt_price_b: Decimal, round_up: bool)
    -> (r: Result<Decimal, ContractError>)
    requires
        ({
            let p = liq@ * (hi_of(sqrt_price_a@, sqrt_price_b@) - lo_of(sqrt_price_a@, sqrt_price_b@)) / dec_frac();
            &&& p < pow2_128()
            &&& round_up && p % dec_frac() != 0 ==> (p / dec_frac() + 1) * dec_frac() < pow2_128()
        }),
    ensures
        ({
            let p = liq@ * (hi_of(sqrt_price_a@, sqrt_price_b@) - lo_of(sqrt_price_a@, sqrt_price_b@)) / dec_frac();
            r is Ok && r->Ok_0@ == if round_up && p % dec_frac() != 0 { (p / dec_frac() + 1) * dec_frac() } else { p }
        }),
{
    let (lo, hi) = if sqrt_price_b.lt(&sqrt_price_a) { (sqrt_price_b, sqrt_price_a) } else { (sqrt_price_a, sqrt_price_b) };
    let diff = match hi.checked_sub(lo) {
        Ok(v) => v,
        Err(e) => { return Err(ContractError::OverflowError(e)); },
    };
    let result = match liq.checked_mul(diff) {
        Ok(v) => v,
        Err(e) => { return Err(ContractError::OverflowError(e)); },
    };
    if round_up {
        Ok(result.ceil())
    } else {
        Ok(result)
    }
}

/// The order in which two square-root prices are given does not matter:
/// the liquidity of an amount and the width of the range are the same either way.
pub proof fn law_price_order_free(amount: int, a: int, b: int)
    ensures
        lo_of(a, b) == lo_of(b, a),
        hi_of(a, b) == hi_of(b, a),
        liquidity0_value(amount, a, b) == liquidity0_value(amount, b, a),
{
}

} // verus!
