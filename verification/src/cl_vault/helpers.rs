use vstd::prelude::*;
use crate::cl_vault::error::ContractError;
use crate::coin::{find_first, first_with, Coin};
use crate::cl_vault::coinlist::BankSend;
use crate::cl_vault::state::PoolConfig;
use crate::text::{decimal_text, u128_text};
use crate::cl_vault::tick::{spec_tick_to_price, tick_to_price, valid_tick, MAX_TICK, MIN_INITIALIZED_TICK};
use crate::math::decimal::decimal256_sqrt_atomics;
use crate::math::decimal::{dec_frac, Decimal, Decimal256};
use crate::math::uint::{
    pow2_128, pow2_256, spec_mul_ratio, u128_checked_multiply_ratio, u128_multiply_ratio,
    u256_checked_multiply_ratio, u256_multiply_ratio, CheckedFromRatioError, CheckedMultiplyRatioError, OverflowError,
    OverflowOperation, Uint256, ConversionOverflowError,
};

verus! {

/// The absolute value of an integer.
pub open spec fn abs_int(x: int) -> int {
    if x < 0 { -x } else { x }
}

/// The remainder of `a` by `m` as Rust's `%` computes it: it takes the sign
/// of `a` and the magnitude `|a| mod |m|`.
pub open spec fn trunc_rem(a: int, m: int) -> int {
    if a >= 0 { a % abs_int(m) } else { -((-a) % abs_int(m)) }
}

/// The value of `round_up_to_nearest_multiple`: zero when `|amount| < multiple`;
/// an exact multiple is kept; any other amount moves towards positive infinity,
/// a negative one by `|remainder|` and a positive one by `multiple - remainder`.
pub open spec fn spec_round_up_to_nearest_multiple(amount: int, multiple: int) -> int {
    if abs_int(amount) < multiple {
        0
    } else {
        let rem = trunc_rem(amount, multiple);
        if rem == 0 {
            amount
        } else if amount < 0 {
            amount + abs_int(rem)
        } else {
            amount + (multiple - rem)
        }
    }
}

/// Rounds `amount` up to the nearest multiple of `multiple`; amounts whose
/// magnitude is below `multiple` give 0.
///
/// `multiple` must not be zero and `amount` must not be `i64::MIN`, and the
/// rounding of a positive amount must stay within `i64`: elsewhere the
/// computation panics.
pub fn round_up_to_nearest_multiple(amount: i64, multiple: i64) -> (r: i64)
    requires
        multiple != 0,
        amount > i64::MIN,
        amount >= 0 && abs_int(amount as int) >= multiple && trunc_rem(amount as int, multiple as int) != 0
            ==> {
            let d = multiple - trunc_rem(amount as int, multiple as int);
            &&& i64::MIN <= d
            &&& amount + d <= i64::MAX
        },
    ensures
        r == spec_round_up_to_nearest_multiple(amount as int, multiple as int),
{
    let abs: i64 = if amount < 0 { -amount } else { amount };
    if abs < multiple {
        return 0;
    }
    // Rust's `%` takes the sign of `amount` and the magnitude `|amount| mod |multiple|`;
    // `i64::MIN` is larger in magnitude than any other `amount`, which is then its own remainder.
    let remainder: i64 = if multiple == i64::MIN {
        proof {
            let big: int = 0x8000_0000_0000_0000;
            if amount >= 0 {
                vstd::arithmetic::div_mod::lemma_small_mod(amount as nat, big as nat);
            } else {
                vstd::arithmetic::div_mod::lemma_small_mod((-amount) as nat, big as nat);
            }
        }
        amount
    } else {
        let m: i64 = if multiple < 0 { -multiple } else { multiple };
        amount % m
    };
    assert(remainder == trunc_rem(amount as int, multiple as int));
    if remainder == 0 {
        amount
    } else if amount < 0 {
        let ra: i64 = if remainder < 0 { -remainder } else { remainder };
        amount + ra
    } else {
        amount + (multiple - remainder)
    }
}


/// The coin of denomination `d` among `tokens`: the first one, or a zero coin of it.
pub open spec fn coin_or_zero(tokens: Seq<Coin>, d: String) -> Coin {
    match first_with(tokens, d@) {
        Some(i) => tokens[i],
        None => Coin { denom: d, amount: 0 },
    }
}

/// The coins of the two denominations among `tokens`, in the order of
/// `denoms`; a denomination that is missing gives a zero coin.
pub fn get_one_or_two(tokens: &Vec<Coin>, denoms: (String, String)) -> (r: Result<(Coin, Coin), ContractError>)
    ensures
        r == Ok::<(Coin, Coin), ContractError>((coin_or_zero(tokens@, denoms.0), coin_or_zero(tokens@, denoms.1))),
{
    let (d0, d1) = denoms;
    let token0 = match find_first(tokens, &d0) {
        Some(i) => tokens[i].duplicate(),
        None => Coin { denom: d0, amount: 0 },
    };
    let token1 = match find_first(tokens, &d1) {
        Some(i) => tokens[i].duplicate(),
        None => Coin { denom: d1, amount: 0 },
    };
    Ok((token0, token1))
}

/// The paid coins of the two denominations, in the order of `denoms`; a
/// payment of other than one or two coins is refused.
pub fn must_pay_one_or_two(funds: &Vec<Coin>, denoms: (String, String)) -> (r: Result<(Coin, Coin), ContractError>)
    ensures
        if funds@.len() != 1 && funds@.len() != 2 {
            r == Err::<(Coin, Coin), ContractError>(ContractError::IncorrectAmountFunds)
        } else {
            r == Ok::<(Coin, Coin), ContractError>((coin_or_zero(funds@, denoms.0), coin_or_zero(funds@, denoms.1)))
        },
{
    if funds.len() != 2 && funds.len() != 1 {
        return Err(ContractError::IncorrectAmountFunds);
    }
    get_one_or_two(funds, denoms)
}

/// The non-zero coins of the two denominations among `tokens`, in the order
/// of `denoms`; none at all is refused.
pub fn get_one_or_two_coins(tokens: &Vec<Coin>, denoms: (String, String)) -> (r: Result<Vec<Coin>, ContractError>)
    ensures
        ({
            let t0 = coin_or_zero(tokens@, denoms.0);
            let t1 = coin_or_zero(tokens@, denoms.1);
            let v = if t0.amount > 0 && t1.amount > 0 {
                seq![t0, t1]
            } else if t0.amount > 0 {
                seq![t0]
            } else if t1.amount > 0 {
                seq![t1]
            } else {
                Seq::<Coin>::empty()
            };
            if v.len() == 0 {
                r == Err::<Vec<Coin>, ContractError>(ContractError::IncorrectAmountFunds)
            } else {
                r is Ok && r->Ok_0@ == v
            }
        }),
{
    let (token0, token1) = match get_one_or_two(tokens, denoms) {
        Ok(p) => p,
        Err(e) => { return Err(e); },
    };
    let mut out: Vec<Coin> = Vec::new();
    if token0.amount > 0 {
        out.push(token0);
    }
    if token1.amount > 0 {
        out.push(token1);
    }
    if out.len() == 0 {
        return Err(ContractError::IncorrectAmountFunds);
    }
    proof {
        assert(out@ =~= (if token0.amount > 0 && token1.amount > 0 {
            seq![token0, token1]
        } else if token0.amount > 0 {
            seq![token0]
        } else if token1.amount > 0 {
            seq![token1]
        } else {
            Seq::<Coin>::empty()
        }));
    }
    Ok(out)
}

/// `amount` reduced by the fraction `slippage`, rounded down; a slippage
/// above one is an overflow.
pub fn with_slippage(amount: u128, slippage: Decimal) -> (r: Result<u128, ContractError>)
    ensures
        if slippage@ > dec_frac() {
            r == Err::<u128, ContractError>(ContractError::OverflowError(OverflowError { operation: OverflowOperation::Sub }))
        } else {
            r == Ok::<u128, ContractError>((amount * (dec_frac() - slippage@) / dec_frac()) as u128)
        },
{
    let multiplier = match Decimal::one().checked_sub(slippage) {
        Ok(v) => v,
        Err(e) => { return Err(ContractError::OverflowError(e)); },
    };
    assert(amount * multiplier@ / dec_frac() <= amount) by (nonlinear_arith)
        requires multiplier@ <= dec_frac(), multiplier@ >= 0, amount >= 0, dec_frac() > 0;
    match u128_checked_multiply_ratio(amount, multiplier.numerator(), multiplier.denominator()) {
        Ok(v) => Ok(v),
        Err(e) => Err(ContractError::CheckedMultiplyRatioError(e)),
    }
}

/// The value of two amounts in the first token: `token0 + token1 / price`,
/// the quotient rounded down; CosmWasm panics on a zero price or a quotient
/// beyond 128 bits, which `requires` excludes.
pub fn get_asset0_value(token0: u128, token1: u128, spot_price: Decimal) -> (r: Result<u128, ContractError>)
    requires
        spot_price@ != 0,
        token1 * dec_frac() / spot_price@ < pow2_128(),
    ensures
        ({
            let total = token0 + token1 * dec_frac() / spot_price@;
            if total < pow2_128() {
                r == Ok::<u128, ContractError>(total as u128)
            } else {
                r == Err::<u128, ContractError>(ContractError::OverflowError(OverflowError { operation: OverflowOperation::Add }))
            }
        }),
{
    let in0 = u128_multiply_ratio(token1, spot_price.denominator(), spot_price.numerator());
    match token0.checked_add(in0) {
        Some(v) => Ok(v),
        None => Err(ContractError::OverflowError(OverflowError { operation: OverflowOperation::Add })),
    }
}

/// The largest deposit of the two tokens in the ratio `ratio` (token0 per
/// token1): whichever token limits the deposit is used up, the other scaled
/// to it.
pub fn get_max_utilization_for_ratio(token0: Uint256, token1: Uint256, ratio: Decimal256)
    -> (r: Result<(Uint256, Uint256), ContractError>)
    ensures
        match spec_mul_ratio(token0@, dec_frac(), ratio@, pow2_256()) {
            Err(e) => r == Err::<(Uint256, Uint256), ContractError>(ContractError::CheckedMultiplyRatioError(e)),
            Ok(max1) => match spec_mul_ratio(token1@, ratio@, dec_frac(), pow2_256()) {
                Err(e) => r == Err::<(Uint256, Uint256), ContractError>(ContractError::CheckedMultiplyRatioError(e)),
                Ok(max0) => r is Ok && (
                    if max0 > token0@ {
                        r->Ok_0.0@ == token0@ && r->Ok_0.1@ == max1
                    } else if max1 > token1@ {
                        r->Ok_0.0@ == max0 && r->Ok_0.1@ == token1@
                    } else {
                        r->Ok_0.0@ == token0@ && r->Ok_0.1@ == token1@
                    }),
            },
        },
{
    let frac = ratio.denominator();
    let max_deposit1_from_0 = match u256_checked_multiply_ratio(token0, frac, ratio.numerator()) {
        Ok(v) => v,
        Err(e) => { return Err(ContractError::CheckedMultiplyRatioError(e)); },
    };
    let max_deposit0_from_1 = match u256_checked_multiply_ratio(token1, ratio.numerator(), frac) {
        Ok(v) => v,
        Err(e) => { return Err(ContractError::CheckedMultiplyRatioError(e)); },
    };
    if token0.lt(&max_deposit0_from_1) {
        Ok((token0, max_deposit1_from_0))
    } else if token1.lt(&max_deposit1_from_0) {
        Ok((max_deposit0_from_1, token1))
    } else {
        Ok((token0, token1))
    }
}

/// The amounts of the two tokens that a position needs, relative to each other.
#[derive(Debug, Clone, Copy, PartialEq, Eq, Structural)]
pub struct PositionRatio {
    pub asset0: u128,
    pub asset1: u128,
}

impl PositionRatio {
    pub fn new(asset0: u128, asset1: u128) -> (r: PositionRatio)
        ensures
            r.asset0 == asset0,
            r.asset1 == asset1,
    {
        PositionRatio { asset0, asset1 }
    }

    /// Zero of each token.
    pub fn zero() -> (r: PositionRatio)
        ensures
            r.asset0 == 0,
            r.asset1 == 0,
    {
        PositionRatio { asset0: 0, asset1: 0 }
    }

    /// Reduces a one-sided ratio to one unit, and expresses a two-sided one as
    /// a decimal quotient over 10^18; CosmWasm panics when that quotient
    /// overflows, which `requires` excludes.
    pub fn simplify(&mut self)
        requires
            old(self).asset0 > 1 && old(self).asset1 > 1 ==>
                old(self).asset0 * dec_frac() / (old(self).asset1 as int) < pow2_128(),
        ensures
            ({
                let (a0, a1) = (old(self).asset0, old(self).asset1);
                if a0 >= 1 && a1 == 0 {
                    final(self).asset0 == 1 && final(self).asset1 == 0
                } else if a0 == 0 && a1 >= 1 {
                    final(self).asset0 == 0 && final(self).asset1 == 1
                } else if a0 > 1 && a1 > 1 {
                    final(self).asset0 == a0 * dec_frac() / (a1 as int) && final(self).asset1 == dec_frac()
                } else {
                    *final(self) == *old(self)
                }
            }),
    {
        if self.asset0 >= 1 && self.asset1 == 0 {
            self.asset0 = 1;
        }
        if self.asset0 == 0 && self.asset1 >= 1 {
            self.asset1 = 1;
        }
        if self.asset0 > 1 && self.asset1 > 1 {
            let d = Decimal::from_ratio(self.asset0, self.asset1);
            self.asset0 = d.numerator();
            self.asset1 = d.denominator();
        }
    }

    /// The side-by-side product of two ratios; a side that leaves 128 bits
    /// overflows.
    pub fn checked_mul(self, other: PositionRatio) -> (r: Result<PositionRatio, OverflowError>)
        ensures
            if self.asset0 * other.asset0 >= pow2_128() || self.asset1 * other.asset1 >= pow2_128() {
                r == Err::<PositionRatio, OverflowError>(OverflowError { operation: OverflowOperation::Mul })
            } else {
                r == Ok::<PositionRatio, OverflowError>(PositionRatio {
                    asset0: (self.asset0 * other.asset0) as u128,
                    asset1: (self.asset1 * other.asset1) as u128,
                })
            },
    {
        let asset0 = match self.asset0.checked_mul(other.asset0) {
            Some(v) => v,
            None => { return Err(OverflowError { operation: OverflowOperation::Mul }); },
        };
        let asset1 = match self.asset1.checked_mul(other.asset1) {
            Some(v) => v,
            None => { return Err(OverflowError { operation: OverflowOperation::Mul }); },
        };
        Ok(PositionRatio { asset0, asset1 })
    }

    /// Both sides multiplied by the decimal `other`, rounded down.
    pub fn checked_mul_ratio(self, other: Decimal) -> (r: Result<PositionRatio, CheckedMultiplyRatioError>)
        ensures
            match spec_mul_ratio(self.asset0 as int, other@, dec_frac(), pow2_128()) {
                Err(e) => r == Err::<PositionRatio, CheckedMultiplyRatioError>(e),
                Ok(a0) => match spec_mul_ratio(self.asset1 as int, other@, dec_frac(), pow2_128()) {
                    Err(e) => r == Err::<PositionRatio, CheckedMultiplyRatioError>(e),
                    Ok(a1) => r == Ok::<PositionRatio, CheckedMultiplyRatioError>(
                        PositionRatio { asset0: a0 as u128, asset1: a1 as u128 }),
                },
            },
    {
        let asset0 = match u128_checked_multiply_ratio(self.asset0, other.numerator(), other.denominator()) {
            Ok(v) => v,
            Err(e) => { return Err(e); },
        };
        let asset1 = match u128_checked_multiply_ratio(self.asset1, other.numerator(), other.denominator()) {
            Ok(v) => v,
            Err(e) => { return Err(e); },
        };
        Ok(PositionRatio { asset0, asset1 })
    }

    /// The side-by-side sum of two ratios; a side that leaves 128 bits overflows.
    pub fn checked_add(self, other: &PositionRatio) -> (r: Result<PositionRatio, OverflowError>)
        ensures
            if self.asset0 + other.asset0 >= pow2_128() || self.asset1 + other.asset1 >= pow2_128() {
                r == Err::<PositionRatio, OverflowError>(OverflowError { operation: OverflowOperation::Add })
            } else {
                r == Ok::<PositionRatio, OverflowError>(PositionRatio {
                    asset0: (self.asset0 + other.asset0) as u128,
                    asset1: (self.asset1 + other.asset1) as u128,
                })
            },
    {
        let asset0 = match self.asset0.checked_add(other.asset0) {
            Some(v) => v,
            None => { return Err(OverflowError { operation: OverflowOperation::Add }); },
        };
        let asset1 = match self.asset1.checked_add(other.asset1) {
            Some(v) => v,
            None => { return Err(OverflowError { operation: OverflowOperation::Add }); },
        };
        Ok(PositionRatio { asset0, asset1 })
    }
}

/// A position and its share of the vault.
#[derive(Debug, Clone, Copy, PartialEq, Eq, Structural)]
pub struct WeightedPosition {
    pub position_id: u64,
    pub ratio: u128,
}

/// The sum of the positions' shares.
pub open spec fn total_share(ps: Seq<(WeightedPosition, PositionRatio)>) -> int
    decreases ps.len(),
{
    if ps.len() == 0 { 0 } else { total_share(ps.drop_last()) + ps.last().0.ratio }
}

proof fn lemma_total_share_prefix(ps: Seq<(WeightedPosition, PositionRatio)>, k: int)
    requires
        0 <= k <= ps.len(),
    ensures
        0 <= total_share(ps.subrange(0, k)) <= total_share(ps),
    decreases ps.len() - k,
{
    if k < ps.len() {
        lemma_total_share_prefix(ps, k + 1);
        assert(ps.subrange(0, k + 1).drop_last() =~= ps.subrange(0, k));
        lemma_total_share_nonneg(ps.subrange(0, k));
    } else {
        assert(ps.subrange(0, k) =~= ps);
        lemma_total_share_nonneg(ps);
    }
}

proof fn lemma_total_share_nonneg(ps: Seq<(WeightedPosition, PositionRatio)>)
    ensures
        total_share(ps) >= 0,
    decreases ps.len(),
{
    if ps.len() > 0 {
        lemma_total_share_nonneg(ps.drop_last());
    }
}

/// A position's share of the vault as a decimal: its share over the total.
pub open spec fn external_ratio(p: WeightedPosition, total: int) -> int {
    p.ratio * dec_frac() / total
}

/// Each position's ratio scaled by its share of the vault (its share over
/// the total, as a decimal), rounded down. CosmWasm panics when the total
/// overflows or is zero, which `requires` excludes.
pub fn get_final_ratio(positions: Vec<(WeightedPosition, PositionRatio)>)
    -> (r: Result<Vec<(WeightedPosition, PositionRatio)>, ContractError>)
    requires
        total_share(positions@) < pow2_128(),
        positions@.len() > 0 ==> total_share(positions@) > 0,
    ensures
        r is Ok,
        r->Ok_0@.len() == positions@.len(),
        forall|i: int| 0 <= i < positions@.len() ==> {
            let (p, pr) = #[trigger] positions@[i];
            let e = external_ratio(p, total_share(positions@));
            &&& r->Ok_0@[i].0 == p
            &&& r->Ok_0@[i].1.asset0 == pr.asset0 * e / dec_frac()
            &&& r->Ok_0@[i].1.asset1 == pr.asset1 * e / dec_frac()
        },
{
    let ghost ps = positions@;
    let n = positions.len();
    let mut total: u128 = 0;
    let mut i: usize = 0;
    while i < n
        invariant
            n == ps.len(),
            ps == positions@,
            i <= n,
            total == total_share(ps.subrange(0, i as int)),
            total_share(ps) < pow2_128(),
        decreases n - i,
    {
        proof {
            assert(ps.subrange(0, i + 1).drop_last() =~= ps.subrange(0, i as int));
            lemma_total_share_prefix(ps, i + 1);
        }
        total = total + positions[i].0.ratio;
        i = i + 1;
    }
    assert(ps.subrange(0, n as int) =~= ps);
    let mut out: Vec<(WeightedPosition, PositionRatio)> = Vec::new();
    let mut j: usize = 0;
    while j < n
        invariant
            n == ps.len(),
            ps == positions@,
            j <= n,
            total == total_share(ps),
            n > 0 ==> total > 0,
            out@.len() == j,
            forall|k: int| 0 <= k < j ==> {
                let (p, pr) = #[trigger] ps[k];
                let e = external_ratio(p, total_share(ps));
                &&& out@[k].0 == p
                &&& out@[k].1.asset0 == pr.asset0 * e / dec_frac()
                &&& out@[k].1.asset1 == pr.asset1 * e / dec_frac()
            },
        decreases n - j,
    {
        let (p, internal) = positions[j];
        proof {
            lemma_share_le_total(ps, j as int);
            assert(p.ratio * dec_frac() / (total as int) <= dec_frac()) by (nonlinear_arith)
                requires p.ratio <= total, total > 0, dec_frac() > 0;
        }
        let external = Decimal::from_ratio(p.ratio, total);
        proof {
            assert(internal.asset0 * external@ / dec_frac() <= internal.asset0) by (nonlinear_arith)
                requires external@ <= dec_frac(), external@ >= 0, dec_frac() > 0, internal.asset0 >= 0;
            assert(internal.asset1 * external@ / dec_frac() <= internal.asset1) by (nonlinear_arith)
                requires external@ <= dec_frac(), external@ >= 0, dec_frac() > 0, internal.asset1 >= 0;
        }
        let effective = match internal.checked_mul_ratio(external) {
            Ok(v) => v,
            Err(e) => { return Err(ContractError::CheckedMultiplyRatioError(e)); },
        };
        out.push((p, effective));
        j = j + 1;
    }
    Ok(out)
}

/// One position's share is at most the total.
proof fn lemma_share_le_total(ps: Seq<(WeightedPosition, PositionRatio)>, j: int)
    requires
        0 <= j < ps.len(),
    ensures
        ps[j].0.ratio <= total_share(ps),
    decreases ps.len(),
{
    lemma_total_share_nonneg(ps.drop_last());
    if j < ps.len() - 1 {
        lemma_share_le_total(ps.drop_last(), j);
    }
}

/// The price at a tick, in atomic units, with the errors of `tick_to_price`.
pub open spec fn price_at(t: int) -> Result<int, ContractError> {
    if t != 0 && t < MIN_INITIALIZED_TICK {
        Err(ContractError::TickIndexMinError)
    } else if t > MAX_TICK {
        Err(ContractError::TickIndexMaxError)
    } else {
        Ok(spec_tick_to_price(t))
    }
}

/// The pool's constant for a position between the square-root prices `lo`
/// and `up` at `cur`: `up * cur * (cur - lo) / (up - cur)` in decimal
/// arithmetic, with the errors of each step in order.
pub open spec fn pool_constant(lo: int, cur: int, up: int) -> Result<int, ContractError> {
    let f = dec_frac();
    if up * cur / f >= pow2_256() {
        Err(ContractError::OverflowError(OverflowError { operation: OverflowOperation::Mul }))
    } else if cur < lo {
        Err(ContractError::OverflowError(OverflowError { operation: OverflowOperation::Sub }))
    } else if (up * cur / f) * (cur - lo) / f >= pow2_256() {
        Err(ContractError::OverflowError(OverflowError { operation: OverflowOperation::Mul }))
    } else if up < cur {
        Err(ContractError::OverflowError(OverflowError { operation: OverflowOperation::Sub }))
    } else if up == cur {
        Err(ContractError::MultiplyRatioError(CheckedFromRatioError::DivideByZero))
    } else if ((up * cur / f) * (cur - lo) / f) * f / (up - cur) >= pow2_256() {
        Err(ContractError::MultiplyRatioError(CheckedFromRatioError::Overflow))
    } else {
        Ok(((up * cur / f) * (cur - lo) / f) * f / (up - cur))
    }
}

/// `balance / (1 + x)` for the decimal `x`, rounded down, with the errors of
/// building the divisor.
pub open spec fn share_after(balance: int, x: Result<int, ContractError>) -> Result<u128, ContractError> {
    match x {
        Err(e) => Err(e),
        Ok(q) => if dec_frac() + q >= pow2_256() {
            Err(ContractError::OverflowError(OverflowError { operation: OverflowOperation::Add }))
        } else {
            Ok((balance * dec_frac() / (dec_frac() + q)) as u128)
        },
    }
}

/// The decimal quotient `a / b`, with its errors.
pub open spec fn dec_quotient(a: int, b: int) -> Result<int, ContractError> {
    if b == 0 {
        Err(ContractError::MultiplyRatioError(CheckedFromRatioError::DivideByZero))
    } else if a * dec_frac() / b >= pow2_256() {
        Err(ContractError::MultiplyRatioError(CheckedFromRatioError::Overflow))
    } else {
        Ok(a * dec_frac() / b)
    }
}

/// The amount of token0 to swap before a single-sided deposit of token0,
/// from the price and the square-root prices.
pub open spec fn swap_0_to_1(balance: int, price: int, lo: int, cur: int, up: int) -> Result<u128, ContractError> {
    match pool_constant(lo, cur, up) {
        Err(e) => Err(e),
        Ok(k) => share_after(balance, dec_quotient(price, k)),
    }
}

/// The amount of token1 to swap before a single-sided deposit of token1,
/// from the price and the square-root prices.
pub open spec fn swap_1_to_0(balance: int, price: int, lo: int, cur: int, up: int) -> Result<u128, ContractError> {
    match pool_constant(lo, cur, up) {
        Err(e) => Err(e),
        Ok(k) => share_after(balance, dec_quotient(k, price)),
    }
}

/// The pool's constant in decimal arithmetic.
fn pool_metadata_constant(lo: Decimal256, cur: Decimal256, up: Decimal256) -> (r: Result<Decimal256, ContractError>)
    ensures
        match pool_constant(lo@, cur@, up@) {
            Ok(k) => r is Ok && r->Ok_0@ == k,
            Err(e) => r == Err::<Decimal256, ContractError>(e),
        },
{
    let a = match up.checked_mul(cur) {
        Ok(v) => v,
        Err(e) => { return Err(ContractError::OverflowError(e)); },
    };
    let d1 = match cur.checked_sub(lo) {
        Ok(v) => v,
        Err(e) => { return Err(ContractError::OverflowError(e)); },
    };
    let b = match a.checked_mul(d1) {
        Ok(v) => v,
        Err(e) => { return Err(ContractError::OverflowError(e)); },
    };
    let d2 = match up.checked_sub(cur) {
        Ok(v) => v,
        Err(e) => { return Err(ContractError::OverflowError(e)); },
    };
    match b.checked_div(d2) {
        Ok(v) => Ok(v),
        Err(e) => Err(ContractError::MultiplyRatioError(e)),
    }
}

/// `balance / (1 + x)`, rounded down.
fn divide_by_one_plus(balance: u128, x: Decimal256) -> (r: Result<u128, ContractError>)
    ensures
        r == share_after(balance as int, Ok::<int, ContractError>(x@)),
{
    let denominator = match Decimal256::one().checked_add(x) {
        Ok(v) => v,
        Err(e) => { return Err(ContractError::OverflowError(e)); },
    };
    let b = Uint256::from_u128(balance);
    proof {
        crate::math::uint::lemma_uint256_range(x.atomics);
        assert(balance * dec_frac() / denominator@ <= balance) by (nonlinear_arith)
            requires denominator@ >= dec_frac(), dec_frac() > 0, balance >= 0;
    }
    let q = u256_multiply_ratio(b, denominator.denominator(), denominator.numerator());
    match q.to_u128() {
        Ok(v) => Ok(v),
        Err(e) => Err(ContractError::ConversionOverflowError(e)),
    }
}

/// The amount of token0 to swap before a single-sided deposit of token0,
/// given the current price and the three square-root prices.
pub fn swap_amount_0_to_1_at(token0_balance: u128, current_price: Decimal256, lower_sqrt: Decimal256,
    cur_sqrt: Decimal256, upper_sqrt: Decimal256) -> (r: Result<u128, ContractError>)
    ensures
        r == swap_0_to_1(token0_balance as int, current_price@, lower_sqrt@, cur_sqrt@, upper_sqrt@),
{
    let k = pool_metadata_constant(lower_sqrt, cur_sqrt, upper_sqrt)?;
    let x = match current_price.checked_div(k) {
        Ok(v) => v,
        Err(e) => { return Err(ContractError::MultiplyRatioError(e)); },
    };
    divide_by_one_plus(token0_balance, x)
}

/// The amount of token1 to swap before a single-sided deposit of token1,
/// given the current price and the three square-root prices.
pub fn swap_amount_1_to_0_at(token1_balance: u128, current_price: Decimal256, lower_sqrt: Decimal256,
    cur_sqrt: Decimal256, upper_sqrt: Decimal256) -> (r: Result<u128, ContractError>)
    ensures
        r == swap_1_to_0(token1_balance as int, current_price@, lower_sqrt@, cur_sqrt@, upper_sqrt@),
{
    let k = pool_metadata_constant(lower_sqrt, cur_sqrt, upper_sqrt)?;
    let x = match k.checked_div(current_price) {
        Ok(v) => v,
        Err(e) => { return Err(ContractError::MultiplyRatioError(e)); },
    };
    divide_by_one_plus(token1_balance, x)
}

/// The prices at three ticks, the first failing tick deciding the error.
pub open spec fn prices_at(a: int, b: int, c: int) -> Result<(int, int, int), ContractError> {
    match price_at(a) {
        Err(e) => Err(e),
        Ok(pa) => match price_at(b) {
            Err(e) => Err(e),
            Ok(pb) => match price_at(c) {
                Err(e) => Err(e),
                Ok(pc) => Ok((pa, pb, pc)),
            },
        },
    }
}

/// The prices at three ticks and their square roots.
fn prices_and_roots(lower_tick: i64, current_tick: i64, upper_tick: i64)
    -> (r: Result<(Decimal256, Decimal256, Decimal256, Decimal256), ContractError>)
    ensures
        match prices_at(lower_tick as int, current_tick as int, upper_tick as int) {
            Err(e) => r == Err::<(Decimal256, Decimal256, Decimal256, Decimal256), ContractError>(e),
            Ok(p) => r is Ok && r->Ok_0.0@ == p.1
                && r->Ok_0.1@ == decimal256_sqrt_atomics(p.0)
                && r->Ok_0.2@ == decimal256_sqrt_atomics(p.1)
                && r->Ok_0.3@ == decimal256_sqrt_atomics(p.2),
        },
{
    let lower_price = tick_to_price(lower_tick)?;
    let current_price = tick_to_price(current_tick)?;
    let upper_price = tick_to_price(upper_tick)?;
    Ok((current_price, lower_price.sqrt(), current_price.sqrt(), upper_price.sqrt()))
}

/// The amount of token0 to swap so that a single-sided deposit of
/// `token0_balance` fits the position between `lower_tick` and `upper_tick`
/// at `current_tick`.
pub fn get_single_sided_deposit_0_to_1_swap_amount(token0_balance: u128, lower_tick: i64, current_tick: i64, upper_tick: i64)
    -> (r: Result<u128, ContractError>)
    ensures
        match prices_at(lower_tick as int, current_tick as int, upper_tick as int) {
            Err(e) => r == Err::<u128, ContractError>(e),
            Ok(p) => r == swap_0_to_1(token0_balance as int, p.1, decimal256_sqrt_atomics(p.0),
                decimal256_sqrt_atomics(p.1), decimal256_sqrt_atomics(p.2)),
        },
{
    let (current_price, lo, cur, up) = prices_and_roots(lower_tick, current_tick, upper_tick)?;
    swap_amount_0_to_1_at(token0_balance, current_price, lo, cur, up)
}

/// The amount of token1 to swap so that a single-sided deposit of
/// `token1_balance` fits the position between `lower_tick` and `upper_tick`
/// at `current_tick`.
pub fn get_single_sided_deposit_1_to_0_swap_amount(token1_balance: u128, lower_tick: i64, current_tick: i64, upper_tick: i64)
    -> (r: Result<u128, ContractError>)
    ensures
        match prices_at(lower_tick as int, current_tick as int, upper_tick as int) {
            Err(e) => r == Err::<u128, ContractError>(e),
            Ok(p) => r == swap_1_to_0(token1_balance as int, p.1, decimal256_sqrt_atomics(p.0),
                decimal256_sqrt_atomics(p.1), decimal256_sqrt_atomics(p.2)),
        },
{
    let (current_price, lo, cur, up) = prices_and_roots(lower_tick, current_tick, upper_tick)?;
    swap_amount_1_to_0_at(token1_balance, current_price, lo, cur, up)
}

/// How much of two tokens a position with assets `(a0, a1)` can take, and
/// what is left over: the tokens in the position's ratio, the limiting one
/// used up. A one-sided position takes only its side; an empty one is
/// refused. On atomic units, with `r = a0 / a1` as a decimal: token0 limits
/// when `token0 / r < token1`, and then `token0 / r` of token1 goes in; else
/// `token1 * r` of token0 goes in.
pub open spec fn depositable(a0: int, a1: int, token0: int, token1: int)
    -> Result<((int, int), (int, int)), ContractError>
{
    let f = dec_frac();
    if a0 == 0 && a1 != 0 {
        Ok(((0, token1), (token0, 0)))
    } else if a0 != 0 && a1 == 0 {
        Ok(((token0, 0), (0, token1)))
    } else if a0 == 0 && a1 == 0 {
        Err(ContractError::InvalidRatioOfSwappableFundsToUse)
    } else {
        let r = a0 * f / a1;
        if r == 0 {
            Ok(((0, token1), (token0, 0)))
        } else if token0 * f / r >= pow2_128() {
            Err(ContractError::ConversionOverflowError(ConversionOverflowError {}))
        } else if token0 * f / r < token1 {
            Ok(((token0, token0 * f / r), (0, token1 - token0 * f / r)))
        } else if token1 * r / f >= pow2_128() {
            Err(ContractError::ConversionOverflowError(ConversionOverflowError {}))
        } else if token0 < token1 * r / f {
            Err(ContractError::OverflowError(OverflowError { operation: OverflowOperation::Sub }))
        } else {
            Ok(((token1 * r / f, token1), (token0 - token1 * r / f, 0)))
        }
    }
}

/// Splitting a deposit loses and invents nothing: of each token, what is
/// deposited and what is refunded add up to what was supplied, and neither
/// part is negative.
pub proof fn law_depositable_conserves(a0: int, a1: int, token0: int, token1: int)
    requires
        a0 >= 0,
        a1 >= 0,
        token0 >= 0,
        token1 >= 0,
    ensures
        depositable(a0, a1, token0, token1) matches Ok(v) ==> {
            &&& v.0.0 + v.1.0 == token0
            &&& v.0.1 + v.1.1 == token1
            &&& v.0.0 >= 0 && v.0.1 >= 0 && v.1.0 >= 0 && v.1.1 >= 0
        },
{
    let f = dec_frac();
    if a0 != 0 && a1 != 0 {
        let r = a0 * f / a1;
        if r > 0 {
            assert(token0 * f / r >= 0) by (nonlinear_arith) requires token0 >= 0, f > 0, r > 0;
            assert(token1 * r / f >= 0) by (nonlinear_arith) requires token1 >= 0, f > 0, r > 0;
        }
    }
}

/// The amounts of two tokens a position with assets `asset0` and `asset1`
/// can take, and the amounts left over, in the position's ratio. CosmWasm
/// panics when the ratio of the assets overflows a decimal, which `requires`
/// excludes.
pub fn get_depositable_tokens(asset0: u128, asset1: u128, token0: u128, token1: u128)
    -> (r: Result<((u128, u128), (u128, u128)), ContractError>)
    requires
        asset1 != 0 ==> asset0 * dec_frac() / (asset1 as int) < pow2_128(),
    ensures
        match depositable(asset0 as int, asset1 as int, token0 as int, token1 as int) {
            Ok(v) => r is Ok && r->Ok_0.0.0 == v.0.0 && r->Ok_0.0.1 == v.0.1 && r->Ok_0.1.0 == v.1.0 && r->Ok_0.1.1 == v.1.1,
            Err(e) => r == Err::<((u128, u128), (u128, u128)), ContractError>(e),
        },
        r matches Ok(v) ==> v.0.0 + v.1.0 == token0 && v.0.1 + v.1.1 == token1,
{
    proof { law_depositable_conserves(asset0 as int, asset1 as int, token0 as int, token1 as int); }
    if asset0 == 0 && asset1 != 0 {
        return Ok(((0, token1), (token0, 0)));
    }
    if asset0 != 0 && asset1 == 0 {
        return Ok(((token0, 0), (0, token1)));
    }
    if asset0 == 0 && asset1 == 0 {
        return Err(ContractError::InvalidRatioOfSwappableFundsToUse);
    }
    let ratio = Decimal::from_ratio(asset0, asset1);
    let num = ratio.numerator();
    if num == 0 {
        return Ok(((0, token1), (token0, 0)));
    }
    let f = Uint256::from_u128(1_000_000_000_000_000_000u128);
    proof {
        assert(token0 * dec_frac() / (num as int) <= token0 * dec_frac()) by (nonlinear_arith)
            requires num >= 1, token0 >= 0, dec_frac() > 0;
        assert(token0 * dec_frac() < pow2_256()) by (nonlinear_arith)
            requires token0 < pow2_128(), dec_frac() < pow2_128(), pow2_256() == pow2_128() * pow2_128();
        assert(token1 * (num as int) / dec_frac() <= token1 * (num as int)) by (nonlinear_arith)
            requires num >= 1, token1 >= 0, dec_frac() > 0;
        assert(token1 * (num as int) < pow2_256()) by (nonlinear_arith)
            requires token1 < pow2_128(), num < pow2_128(), pow2_256() == pow2_128() * pow2_128(), token1 >= 0;
    }
    let zero_usage = match u256_multiply_ratio(Uint256::from_u128(token0), f, Uint256::from_u128(num)).to_u128() {
        Ok(v) => v,
        Err(e) => { return Err(ContractError::ConversionOverflowError(e)); },
    };
    if zero_usage < token1 {
        let t1 = zero_usage;
        Ok(((token0, t1), (0, token1 - t1)))
    } else {
        let t0 = match u256_multiply_ratio(Uint256::from_u128(token1), Uint256::from_u128(num), f).to_u128() {
            Ok(v) => v,
            Err(e) => { return Err(ContractError::ConversionOverflowError(e)); },
        };
        if token0 < t0 {
            return Err(ContractError::OverflowError(OverflowError { operation: OverflowOperation::Sub }));
        }
        Ok(((t0, token1), (token0 - t0, 0)))
    }
}

/// The non-zero amounts of the pool's two tokens, as coins, token0 first.
pub fn get_tokens_provided(amount0: u128, amount1: u128, pool_config: &PoolConfig) -> (r: Result<Vec<Coin>, ContractError>)
    ensures
        r is Ok,
        r->Ok_0@ == if amount0 != 0 && amount1 != 0 {
            seq![Coin { denom: pool_config.token0, amount: amount0 }, Coin { denom: pool_config.token1, amount: amount1 }]
        } else if amount0 != 0 {
            seq![Coin { denom: pool_config.token0, amount: amount0 }]
        } else if amount1 != 0 {
            seq![Coin { denom: pool_config.token1, amount: amount1 }]
        } else {
            Seq::<Coin>::empty()
        },
{
    let mut tokens: Vec<Coin> = Vec::new();
    if amount0 != 0 {
        tokens.push(Coin { denom: pool_config.token0.clone(), amount: amount0 });
    }
    if amount1 != 0 {
        tokens.push(Coin { denom: pool_config.token1.clone(), amount: amount1 });
    }
    proof {
        assert(tokens@ =~= (if amount0 != 0 && amount1 != 0 {
            seq![Coin { denom: pool_config.token0, amount: amount0 }, Coin { denom: pool_config.token1, amount: amount1 }]
        } else if amount0 != 0 {
            seq![Coin { denom: pool_config.token0, amount: amount0 }]
        } else if amount1 != 0 {
            seq![Coin { denom: pool_config.token1, amount: amount1 }]
        } else {
            Seq::<Coin>::empty()
        }));
    }
    Ok(tokens)
}

/// `m` times the quotient of `a + m - 1` by `m`: `a` rounded up to a
/// multiple of `m`.
pub open spec fn ceil_multiple(a: int, m: int) -> int {
    m * ((a + m - 1) / m)
}

proof fn lemma_ceil_multiple_of_split(q: int, r: int, m: int)
    requires
        m > 0,
        0 <= r < m,
    ensures
        ceil_multiple(m * q + r, m) == if r == 0 { m * q } else { m * q + m },
        ceil_multiple(-(m * q) - r, m) == -(m * q),
{
    assert(m * (-q) == -(m * q)) by (nonlinear_arith);
    assert(m * (q + 1) == m * q + m) by (nonlinear_arith);
    assert(q * m == m * q && (-q) * m == -(m * q) && (q + 1) * m == m * q + m) by (nonlinear_arith);
    if r == 0 {
        assert(m * q + m - 1 == q * m + (m - 1));
        vstd::arithmetic::div_mod::lemma_fundamental_div_mod_converse(m * q + m - 1, m, q, m - 1);
        assert(-(m * q) + m - 1 == (-q) * m + (m - 1));
        vstd::arithmetic::div_mod::lemma_fundamental_div_mod_converse(-(m * q) + m - 1, m, -q, m - 1);
    } else {
        assert(m * q + r + m - 1 == (q + 1) * m + (r - 1));
        vstd::arithmetic::div_mod::lemma_fundamental_div_mod_converse(m * q + r + m - 1, m, q + 1, r - 1);
        assert(-(m * q) - r + m - 1 == (-q) * m + (m - 1 - r));
        vstd::arithmetic::div_mod::lemma_fundamental_div_mod_converse(-(m * q) - r + m - 1, m, -q, m - 1 - r);
    }
}

proof fn lemma_round_up_value(a: int, m: int)
    requires
        m > 0,
    ensures
        spec_round_up_to_nearest_multiple(a, m) == if 0 < a < m { 0 } else { ceil_multiple(a, m) },
{
    let b = abs_int(a);
    vstd::arithmetic::div_mod::lemma_fundamental_div_mod(b, m);
    vstd::arithmetic::div_mod::lemma_mod_bound(b, m);
    let q = b / m;
    let r = b % m;
    assert(b == m * q + r);
    lemma_ceil_multiple_of_split(q, r, m);
    if a >= 0 {
        if a < m {
            if a == 0 {
                vstd::arithmetic::div_mod::lemma_fundamental_div_mod_converse(m - 1, m, 0, m - 1);
            }
        } else {
            assert(trunc_rem(a, m) == r);
        }
    } else {
        assert(a == -(m * q) - r);
        assert(trunc_rem(a, m) == -r);
        if b < m {
            assert(q == 0) by {
                vstd::arithmetic::div_mod::lemma_fundamental_div_mod_converse(b, m, 0, b);
            }
            assert(m * 0 == 0);
        }
    }
}

/// Rounding up to a multiple keeps the order of the amounts.
pub proof fn law_round_up_monotone(a: int, b: int, m: int)
    requires
        m > 0,
        a <= b,
    ensures
        spec_round_up_to_nearest_multiple(a, m) <= spec_round_up_to_nearest_multiple(b, m),
{
    lemma_round_up_value(a, m);
    lemma_round_up_value(b, m);
    assert(0 * m + (m - 1) == m - 1);
    vstd::arithmetic::div_mod::lemma_fundamental_div_mod_converse(m - 1, m, 0, m - 1);
    assert(1 * m + (m - 1) == m + m - 1);
    vstd::arithmetic::div_mod::lemma_fundamental_div_mod_converse(m + m - 1, m, 1, m - 1);
    let qa = (a + m - 1) / m;
    let qb = (b + m - 1) / m;
    if 0 < a < m {
        if !(0 < b < m) {
            vstd::arithmetic::div_mod::lemma_div_is_ordered(m + m - 1, b + m - 1, m);
            assert(m * 1 <= m * qb) by (nonlinear_arith) requires m > 0, 1 <= qb;
        }
    } else if 0 < b < m {
        vstd::arithmetic::div_mod::lemma_div_is_ordered(a + m - 1, m - 1, m);
        assert(m * qa <= m * 0) by (nonlinear_arith) requires m > 0, qa <= 0;
    } else {
        vstd::arithmetic::div_mod::lemma_div_is_ordered(a + m - 1, b + m - 1, m);
        assert(m * qa <= m * qb) by (nonlinear_arith) requires m > 0, qa <= qb;
    }
}

/// The refunds with a non-zero amount, in order.
pub open spec fn refund_coins(refund0: Option<Coin>, refund1: Option<Coin>) -> Seq<Coin> {
    let a = match refund0 { Some(c) => if c.amount > 0 { seq![c] } else { Seq::empty() }, None => Seq::empty() };
    let b = match refund1 { Some(c) => if c.amount > 0 { seq![c] } else { Seq::empty() }, None => Seq::empty() };
    a + b
}

/// The attributes of the refunds with a non-zero amount, in order: for
/// refund `N`, `refundN_amount` with the amount in decimal, then
/// `refundN_denom` with the denomination.
pub open spec fn refund_attributes(refund0: Option<Coin>, refund1: Option<Coin>) -> Seq<(Seq<char>, Seq<char>)> {
    let a = match refund0 {
        Some(c) => if c.amount > 0 {
            seq![("refund0_amount"@, decimal_text(c.amount as nat)), ("refund0_denom"@, c.denom@)]
        } else {
            Seq::empty()
        },
        None => Seq::empty(),
    };
    let b = match refund1 {
        Some(c) => if c.amount > 0 {
            seq![("refund1_amount"@, decimal_text(c.amount as nat)), ("refund1_denom"@, c.denom@)]
        } else {
            Seq::empty()
        },
        None => Seq::empty(),
    };
    a + b
}

/// The views of a list of key and value attributes.
pub open spec fn attribute_views(attrs: Seq<(String, String)>) -> Seq<(Seq<char>, Seq<char>)> {
    attrs.map_values(|p: (String, String)| (p.0@, p.1@))
}

/// A payment of the non-zero refunds to `receiver` with attributes naming
/// each refund's amount and denomination; none when nothing is refunded.
pub fn refund_bank_msg(receiver: String, refund0: Option<Coin>, refund1: Option<Coin>)
    -> (r: Result<Option<(BankSend, Vec<(String, String)>)>, ContractError>)
    ensures
        r is Ok,
        refund_coins(refund0, refund1).len() == 0 ==> r->Ok_0 is None,
        refund_coins(refund0, refund1).len() > 0 ==> r->Ok_0 is Some
            && r->Ok_0->Some_0.0.to_address@ == receiver@
            && r->Ok_0->Some_0.0.amount@ == refund_coins(refund0, refund1)
            && attribute_views(r->Ok_0->Some_0.1@) == refund_attributes(refund0, refund1),
{
    let mut attributes: Vec<(String, String)> = Vec::new();
    let mut coins: Vec<Coin> = Vec::new();
    match refund0 {
        Some(c) => {
            if c.amount > 0 {
                attributes.push(("refund0_amount".to_string(), u128_text(c.amount)));
                attributes.push(("refund0_denom".to_string(), c.denom.clone()));
                coins.push(c);
            }
        },
        None => {},
    }
    match refund1 {
        Some(c) => {
            if c.amount > 0 {
                attributes.push(("refund1_amount".to_string(), u128_text(c.amount)));
                attributes.push(("refund1_denom".to_string(), c.denom.clone()));
                coins.push(c);
            }
        },
        None => {},
    }
    assert(coins@ =~= refund_coins(refund0, refund1));
    assert(attribute_views(attributes@) =~= refund_attributes(refund0, refund1));
    if coins.len() > 0 {
        Ok(Some((BankSend { to_address: receiver, amount: coins }, attributes)))
    } else {
        Ok(None)
    }
}

} // verus!
