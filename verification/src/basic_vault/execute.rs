use vstd::prelude::*;
use crate::basic_vault::error::{ContractError, PaymentError};
use crate::basic_vault::state::{InvestmentInfo, PrimitiveConfig};
use crate::coin::Coin;
use crate::cl_vault::coinlist::total_of;
use crate::math::decimal::{cw_decimal_text, dec_frac, decimal_display, Decimal};
use crate::math::uint::{pow2_128, CheckedFromRatioError, OverflowError, OverflowOperation};
use crate::text::concat;

verus! {

/// A denomination and its weight.
#[derive(Debug, Clone, PartialEq, Eq)]
pub struct CoinWeight {
    pub denom: String,
    pub weight: Decimal,
}

/// The weights of several denominations.
#[derive(Debug, Clone, PartialEq, Eq)]
pub struct CoinRatio {
    pub ratio: Vec<CoinWeight>,
}

/// `i` is the first coin of denomination `d` in `s`.
pub open spec fn is_first_coin(s: Seq<Coin>, d: Seq<char>, i: int) -> bool {
    &&& 0 <= i < s.len()
    &&& s[i].denom@ == d
    &&& forall|j: int| 0 <= j < i ==> s[j].denom@ != d
}

/// The amount of the first coin of denomination `d`, if any.
pub open spec fn first_amount(s: Seq<Coin>, d: Seq<char>) -> Option<u128> {
    if exists|i: int| is_first_coin(s, d, i) {
        Some(s[choose|i: int| is_first_coin(s, d, i)].amount)
    } else {
        None
    }
}

/// The amount paid in denomination `d`: that of the first coin of it, which
/// must be there and not be zero.
pub open spec fn paid_amount(funds: Seq<Coin>, d: Seq<char>) -> Option<u128> {
    match first_amount(funds, d) {
        Some(a) => if a == 0 { None } else { Some(a) },
        None => None,
    }
}

/// The amount of `denom` among `funds`: that of the first coin of that
/// denomination; missing or zero, it is an error.
pub fn must_pay_multi(funds: &Vec<Coin>, denom: &String) -> (r: Result<u128, PaymentError>)
    ensures
        match r {
            Ok(a) => paid_amount(funds@, denom@) == Some(a),
            Err(e) => paid_amount(funds@, denom@) is None && e == PaymentError::MissingDenom(*denom),
        },
{
    let mut i: usize = 0;
    while i < funds.len()
        invariant
            i <= funds@.len(),
            forall|j: int| 0 <= j < i ==> funds@[j].denom@ != denom@,
        decreases funds@.len() - i,
    {
        if funds[i].denom == *denom {
            proof {
                assert(is_first_coin(funds@, denom@, i as int));
                assert forall|k: int| is_first_coin(funds@, denom@, k) implies k == i by {
                    if k > i {
                        assert(funds@[i as int].denom@ == denom@);
                    }
                }
            }
            if funds[i].amount == 0 {
                return Err(PaymentError::MissingDenom(denom.clone()));
            }
            return Ok(funds[i].amount);
        }
        i = i + 1;
    }
    proof {
        assert forall|k: int| !is_first_coin(funds@, denom@, k) by {
            if 0 <= k < funds@.len() {
                assert(funds@[k].denom@ != denom@);
            }
        }
    }
    Err(PaymentError::MissingDenom(denom.clone()))
}

/// `i` is the first weight of denomination `d` in `s`.
pub open spec fn is_first_weight(s: Seq<CoinWeight>, d: Seq<char>, i: int) -> bool {
    &&& 0 <= i < s.len()
    &&& s[i].denom@ == d
    &&& forall|j: int| 0 <= j < i ==> s[j].denom@ != d
}

/// Adding one weight to the first weight of its denomination, or appending
/// it; `None` where the sum leaves the decimal range.
pub open spec fn add_weight(acc: Seq<CoinWeight>, cw: CoinWeight) -> Option<Seq<CoinWeight>> {
    if exists|i: int| is_first_weight(acc, cw.denom@, i) {
        let i = choose|i: int| is_first_weight(acc, cw.denom@, i);
        if acc[i].weight@ + cw.weight@ < pow2_128() {
            Some(acc.update(i, CoinWeight { denom: acc[i].denom, weight: Decimal { atomics: (acc[i].weight@ + cw.weight@) as u128 } }))
        } else {
            None
        }
    } else {
        Some(acc.push(cw))
    }
}

/// The weights summed per denomination, in order of first appearance.
pub open spec fn token_weights(s: Seq<CoinWeight>) -> Option<Seq<CoinWeight>>
    decreases s.len(),
{
    if s.len() == 0 {
        Some(Seq::empty())
    } else {
        match token_weights(s.drop_last()) {
            Some(acc) => add_weight(acc, s.last()),
            None => None,
        }
    }
}

proof fn lemma_token_weights_none_extends(p: Seq<CoinWeight>, s: Seq<CoinWeight>)
    requires
        p.len() <= s.len(),
        p =~= s.subrange(0, p.len() as int),
        token_weights(p) is None,
    ensures
        token_weights(s) is None,
    decreases s.len() - p.len(),
{
    if p.len() < s.len() {
        assert(s.subrange(0, p.len() as int + 1).drop_last() =~= p);
        lemma_token_weights_none_extends(s.subrange(0, p.len() as int + 1), s);
    } else {
        assert(p =~= s);
    }
}

/// The first place in `v` with denomination `d`.
fn weight_position(v: &Vec<CoinWeight>, d: &String) -> (r: Option<usize>)
    ensures
        match r {
            Some(i) => i < v@.len() && is_first_weight(v@, d@, i as int)
                && (choose|k: int| is_first_weight(v@, d@, k)) == i as int,
            None => !exists|k: int| is_first_weight(v@, d@, k),
        },
{
    let mut i: usize = 0;
    while i < v.len()
        invariant
            i <= v@.len(),
            forall|j: int| 0 <= j < i ==> v@[j].denom@ != d@,
        decreases v@.len() - i,
    {
        if v[i].denom == *d {
            proof {
                assert(is_first_weight(v@, d@, i as int));
                assert forall|k: int| is_first_weight(v@, d@, k) implies k == i by {
                    if k > i {
                        assert(v@[i as int].denom@ == d@);
                    }
                }
            }
            return Some(i);
        }
        i = i + 1;
    }
    proof {
        assert forall|k: int| !is_first_weight(v@, d@, k) by {
            if 0 <= k < v@.len() {
                assert(v@[k].denom@ != d@);
            }
        }
    }
    None
}

/// Sums the weights of equal denominations, keeping the order in which the
/// denominations first appear; a sum that overflows is an error.
pub fn get_token_amount_weights(deposit_amount_weights: &Vec<CoinWeight>) -> (r: Result<Vec<CoinWeight>, ContractError>)
    ensures
        match token_weights(deposit_amount_weights@) {
            Some(v) => r is Ok && r->Ok_0@ == v,
            None => r == Err::<Vec<CoinWeight>, ContractError>(
                ContractError::OverflowError(OverflowError { operation: OverflowOperation::Add })),
        },
{
    let ghost s = deposit_amount_weights@;
    let mut acc: Vec<CoinWeight> = Vec::new();
    let mut i: usize = 0;
    while i < deposit_amount_weights.len()
        invariant
            s == deposit_amount_weights@,
            i <= s.len(),
            token_weights(s.subrange(0, i as int)) == Some(acc@),
        decreases s.len() - i,
    {
        let cw = &deposit_amount_weights[i];
        proof {
            assert(s.subrange(0, i + 1).drop_last() =~= s.subrange(0, i as int));
        }
        let pos = weight_position(&acc, &cw.denom);
        if pos.is_some() {
            let j = pos.unwrap();
            let cur = &acc[j];
            match cur.weight.checked_add(cw.weight) {
                Ok(w) => {
                    let updated = CoinWeight { denom: cur.denom.clone(), weight: w };
                    acc.set(j, updated);
                },
                Err(_) => {
                    proof { lemma_token_weights_none_extends(s.subrange(0, i + 1), s); }
                    return Err(ContractError::OverflowError(OverflowError { operation: OverflowOperation::Add }));
                },
            }
        } else {
            acc.push(CoinWeight { denom: cw.denom.clone(), weight: cw.weight });
        }
        i = i + 1;
    }
    assert(s.subrange(0, s.len() as int) =~= s);
    Ok(acc)
}

} // verus!

verus! {

/// The bond that a payment of `funds` allows for one token weight: the
/// paid amount divided by the weight, as decimals; with the errors of each step.
pub open spec fn bond_for(funds: Seq<Coin>, cw: CoinWeight) -> Result<int, ContractError> {
    match paid_amount(funds, cw.denom@) {
        None => Err(ContractError::Payment(PaymentError::MissingDenom(cw.denom))),
        Some(a) => if a * dec_frac() >= pow2_128() {
            Err(ContractError::MultiplyRatioError(CheckedFromRatioError::Overflow))
        } else if cw.weight@ == 0 {
            Err(ContractError::MultiplyRatioError(CheckedFromRatioError::DivideByZero))
        } else if (a * dec_frac()) * dec_frac() / cw.weight@ >= pow2_128() {
            Err(ContractError::MultiplyRatioError(CheckedFromRatioError::Overflow))
        } else {
            Ok((a * dec_frac()) * dec_frac() / cw.weight@)
        },
    }
}

/// The smallest bond over the token weights, starting from the largest
/// decimal; the first failing weight decides the error.
pub open spec fn max_bond_of(funds: Seq<Coin>, ws: Seq<CoinWeight>) -> Result<int, ContractError>
    decreases ws.len(),
{
    if ws.len() == 0 {
        Ok(pow2_128() - 1)
    } else {
        match max_bond_of(funds, ws.drop_last()) {
            Err(e) => Err(e),
            Ok(m) => match bond_for(funds, ws.last()) {
                Err(e) => Err(e),
                Ok(b) => Ok(if b < m { b } else { m }),
            },
        }
    }
}

proof fn lemma_max_bond_err_extends(funds: Seq<Coin>, p: Seq<CoinWeight>, s: Seq<CoinWeight>)
    requires
        p.len() <= s.len(),
        p =~= s.subrange(0, p.len() as int),
        max_bond_of(funds, p) is Err,
    ensures
        max_bond_of(funds, s) == max_bond_of(funds, p),
    decreases s.len() - p.len(),
{
    if p.len() < s.len() {
        assert(s.subrange(0, p.len() as int + 1).drop_last() =~= p);
        lemma_max_bond_err_extends(funds, s.subrange(0, p.len() as int + 1), s);
    } else {
        assert(p =~= s);
    }
}

/// The largest bond that `funds` can pay at the given token weights: the
/// smallest quotient of a paid amount by its weight.
pub fn get_max_bond(funds: &Vec<Coin>, token_weights: &Vec<CoinWeight>) -> (r: Result<Decimal, ContractError>)
    ensures
        match max_bond_of(funds@, token_weights@) {
            Ok(m) => r is Ok && r->Ok_0@ == m,
            Err(e) => r == Err::<Decimal, ContractError>(e),
        },
{
    let ghost ws = token_weights@;
    let mut max_bond = Decimal::max();
    let mut i: usize = 0;
    while i < token_weights.len()
        invariant
            ws == token_weights@,
            i <= ws.len(),
            max_bond_of(funds@, ws.subrange(0, i as int)) == Ok::<int, ContractError>(max_bond@),
        decreases ws.len() - i,
    {
        let cw = &token_weights[i];
        proof {
            assert(ws.subrange(0, i + 1).drop_last() =~= ws.subrange(0, i as int));
            assert(ws.subrange(0, i + 1).last() == ws[i as int]);
        }
        let amount = match must_pay_multi(funds, &cw.denom) {
            Ok(a) => a,
            Err(e) => {
                proof { lemma_max_bond_err_extends(funds@, ws.subrange(0, i + 1), ws); }
                return Err(ContractError::Payment(e));
            },
        };
        let whole = match Decimal::from_uint128(amount) {
            Ok(v) => v,
            Err(e) => {
                proof { lemma_max_bond_err_extends(funds@, ws.subrange(0, i + 1), ws); }
                return Err(ContractError::MultiplyRatioError(e));
            },
        };
        let bond_for_token = match whole.checked_div(cw.weight) {
            Ok(v) => v,
            Err(e) => {
                proof { lemma_max_bond_err_extends(funds@, ws.subrange(0, i + 1), ws); }
                return Err(ContractError::MultiplyRatioError(e));
            },
        };
        if bond_for_token.lt(&max_bond) {
            max_bond = bond_for_token;
        }
        i = i + 1;
    }
    assert(ws.subrange(0, ws.len() as int) =~= ws);
    Ok(max_bond)
}

/// Every coin of denomination `d` reduced by `x`; `None` where one of them
/// holds less than `x`.
pub open spec fn reduce_denom(rem: Seq<Coin>, d: Seq<char>, x: u128) -> Option<Seq<Coin>> {
    if exists|i: int| 0 <= i < rem.len() && rem[i].denom@ == d && rem[i].amount < x {
        None
    } else {
        Some(Seq::new(rem.len(), |i: int| if rem[i].denom@ == d {
            Coin { denom: rem[i].denom, amount: (rem[i].amount - x) as u128 }
        } else {
            rem[i]
        }))
    }
}

/// One step of splitting a payment by a ratio: for a weight above zero, the
/// expected amount `max_bond * weight` is taken from the paid funds (rounded
/// down) and from the remainder; a zero weight is skipped.
pub open spec fn deposit_step(funds: Seq<Coin>, max_bond: int, acc: (Seq<Coin>, Seq<Coin>), r: CoinWeight)
    -> Result<(Seq<Coin>, Seq<Coin>), ContractError>
{
    if r.weight@ == 0 {
        Ok(acc)
    } else {
        match paid_amount(funds, r.denom@) {
            None => Err(ContractError::Payment(PaymentError::MissingDenom(r.denom))),
            Some(a) => if a * dec_frac() >= pow2_128() {
                Err(ContractError::MultiplyRatioError(CheckedFromRatioError::Overflow))
            } else if max_bond * r.weight@ / dec_frac() >= pow2_128() {
                Err(ContractError::OverflowError(OverflowError { operation: OverflowOperation::Mul }))
            } else if max_bond * r.weight@ / dec_frac() > a * dec_frac() {
                Err(ContractError::IncorrectBondingRatio)
            } else {
                let x = (max_bond * r.weight@ / dec_frac() / dec_frac()) as u128;
                match reduce_denom(acc.1, r.denom@, x) {
                    None => Err(ContractError::OverflowError(OverflowError { operation: OverflowOperation::Sub })),
                    Some(rem) => Ok((acc.0.push(Coin { denom: r.denom, amount: x }), rem)),
                }
            },
        }
    }
}

/// The split of a payment by a ratio: the coins to deposit, one per weight
/// above zero, and what remains of the funds.
pub open spec fn deposit_split(funds: Seq<Coin>, max_bond: int, ratio: Seq<CoinWeight>)
    -> Result<(Seq<Coin>, Seq<Coin>), ContractError>
    decreases ratio.len(),
{
    if ratio.len() == 0 {
        Ok((Seq::empty(), funds))
    } else {
        match deposit_split(funds, max_bond, ratio.drop_last()) {
            Err(e) => Err(e),
            Ok(acc) => deposit_step(funds, max_bond, acc, ratio.last()),
        }
    }
}

proof fn lemma_deposit_err_extends(funds: Seq<Coin>, m: int, p: Seq<CoinWeight>, s: Seq<CoinWeight>)
    requires
        p.len() <= s.len(),
        p =~= s.subrange(0, p.len() as int),
        deposit_split(funds, m, p) is Err,
    ensures
        deposit_split(funds, m, s) == deposit_split(funds, m, p),
    decreases s.len() - p.len(),
{
    if p.len() < s.len() {
        assert(s.subrange(0, p.len() as int + 1).drop_last() =~= p);
        lemma_deposit_err_extends(funds, m, s.subrange(0, p.len() as int + 1), s);
    } else {
        assert(p =~= s);
    }
}

/// Reduces every coin of denomination `d` by `x`.
fn reduce_remainder(rem: &Vec<Coin>, d: &String, x: u128) -> (r: Option<Vec<Coin>>)
    ensures
        match reduce_denom(rem@, d@, x) {
            Some(v) => r is Some && r->Some_0@ == v,
            None => r is None,
        },
{
    let mut out: Vec<Coin> = Vec::new();
    let mut i: usize = 0;
    while i < rem.len()
        invariant
            i <= rem@.len(),
            forall|k: int| 0 <= k < i ==> !(rem@[k].denom@ == d@ && rem@[k].amount < x),
            out@.len() == i,
            forall|k: int| 0 <= k < i ==> #[trigger] out@[k] == (if rem@[k].denom@ == d@ {
                Coin { denom: rem@[k].denom, amount: (rem@[k].amount - x) as u128 }
            } else {
                rem@[k]
            }),
        decreases rem@.len() - i,
    {
        let c = &rem[i];
        if c.denom == *d {
            if c.amount < x {
                return None;
            }
            out.push(Coin { denom: c.denom.clone(), amount: c.amount - x });
        } else {
            out.push(c.duplicate());
        }
        i = i + 1;
    }
    proof {
        let v = Seq::new(rem@.len(), |k: int| if rem@[k].denom@ == d@ {
            Coin { denom: rem@[k].denom, amount: (rem@[k].amount - x) as u128 }
        } else {
            rem@[k]
        });
        assert(out@ =~= v);
    }
    Some(out)
}

/// Splits a payment by a ratio: for each weight above zero, the amount
/// `max_bond * weight` of its denomination is deposited (rounded down) and
/// taken from the remainder; a payment short of that amount is refused.
pub fn get_deposit_and_remainder_for_ratio(funds: &Vec<Coin>, max_bond: Decimal, ratio: &CoinRatio)
    -> (r: Result<(Vec<Coin>, Vec<Coin>), ContractError>)
    ensures
        match deposit_split(funds@, max_bond@, ratio.ratio@) {
            Ok(v) => r is Ok && r->Ok_0.0@ == v.0 && r->Ok_0.1@ == v.1,
            Err(e) => r == Err::<(Vec<Coin>, Vec<Coin>), ContractError>(e),
        },
{
    let ghost ws = ratio.ratio@;
    let mut coins: Vec<Coin> = Vec::new();
    let mut remainder: Vec<Coin> = crate::coin::copy_coins(funds);
    let mut i: usize = 0;
    while i < ratio.ratio.len()
        invariant
            ws == ratio.ratio@,
            i <= ws.len(),
            deposit_split(funds@, max_bond@, ws.subrange(0, i as int)) == Ok::<(Seq<Coin>, Seq<Coin>), ContractError>((coins@, remainder@)),
        decreases ws.len() - i,
    {
        let r = &ratio.ratio[i];
        proof {
            assert(ws.subrange(0, i + 1).drop_last() =~= ws.subrange(0, i as int));
            assert(ws.subrange(0, i + 1).last() == ws[i as int]);
        }
        if !r.weight.is_zero() {
            let paid = match must_pay_multi(funds, &r.denom) {
                Ok(a) => a,
                Err(e) => {
                    proof { lemma_deposit_err_extends(funds@, max_bond@, ws.subrange(0, i + 1), ws); }
                    return Err(ContractError::Payment(e));
                },
            };
            let amount = match Decimal::from_uint128(paid) {
                Ok(v) => v,
                Err(e) => {
                    proof { lemma_deposit_err_extends(funds@, max_bond@, ws.subrange(0, i + 1), ws); }
                    return Err(ContractError::MultiplyRatioError(e));
                },
            };
            let expected = match max_bond.checked_mul(r.weight) {
                Ok(v) => v,
                Err(e) => {
                    proof { lemma_deposit_err_extends(funds@, max_bond@, ws.subrange(0, i + 1), ws); }
                    return Err(ContractError::OverflowError(e));
                },
            };
            if amount.lt(&expected) {
                proof { lemma_deposit_err_extends(funds@, max_bond@, ws.subrange(0, i + 1), ws); }
                return Err(ContractError::IncorrectBondingRatio);
            }
            let x = expected.to_uint_floor();
            remainder = match reduce_remainder(&remainder, &r.denom, x) {
                Some(v) => v,
                None => {
                    proof { lemma_deposit_err_extends(funds@, max_bond@, ws.subrange(0, i + 1), ws); }
                    return Err(ContractError::OverflowError(OverflowError { operation: OverflowOperation::Sub }));
                },
            };
            coins.push(Coin { denom: r.denom.clone(), amount: x });
        }
        i = i + 1;
    }
    assert(ws.subrange(0, ws.len() as int) =~= ws);
    Ok((coins, remainder))
}

} // verus!

verus! {

/// The product of a primitive's weight and the paid amount fits a decimal.
pub open spec fn share_fits(funds: Coin, p: PrimitiveConfig) -> bool {
    p.weight@ * (funds.amount * dec_frac()) / dec_frac() < pow2_128()
}

/// Each primitive's share of a payment: `weight * amount`, rounded down,
/// paired with the primitive's address; `None` where a product leaves the
/// decimal range.
pub open spec fn shares_of(funds: Coin, ps: Seq<PrimitiveConfig>) -> Option<Seq<(Coin, String)>> {
    if funds.amount * dec_frac() >= pow2_128() {
        None
    } else if !(forall|i: int| 0 <= i < ps.len() ==> share_fits(funds, #[trigger] ps[i])) {
        None
    } else {
        Some(Seq::new(ps.len(), |i: int| (
            Coin { denom: funds.denom, amount: (ps[i].weight@ * (funds.amount * dec_frac()) / dec_frac() / dec_frac()) as u128 },
            ps[i].address,
        )))
    }
}

/// Splits a payment over the primitives by their weights, rounding each
/// share down.
pub fn divide_by_ratio(funds: Coin, invest: InvestmentInfo) -> (r: Result<Vec<(Coin, String)>, ContractError>)
    ensures
        match shares_of(funds, invest.primitives@) {
            Some(v) => r is Ok && r->Ok_0@ == v,
            None => if funds.amount * dec_frac() >= pow2_128() {
                r == Err::<Vec<(Coin, String)>, ContractError>(ContractError::MultiplyRatioError(CheckedFromRatioError::Overflow))
            } else {
                r == Err::<Vec<(Coin, String)>, ContractError>(ContractError::OverflowError(OverflowError { operation: OverflowOperation::Mul }))
            },
        },
{
    let whole = match Decimal::from_uint128(funds.amount) {
        Ok(v) => v,
        Err(e) => { return Err(ContractError::MultiplyRatioError(e)); },
    };
    let ps = &invest.primitives;
    let mut out: Vec<(Coin, String)> = Vec::new();
    let mut i: usize = 0;
    while i < ps.len()
        invariant
            ps@ == invest.primitives@,
            i <= ps@.len(),
            whole@ == funds.amount * dec_frac(),
            whole@ < pow2_128(),
            out@.len() == i,
            forall|k: int| 0 <= k < i ==> share_fits(funds, #[trigger] ps@[k]),
            forall|k: int| 0 <= k < i ==> #[trigger] out@[k] == (
                Coin { denom: funds.denom, amount: (ps@[k].weight@ * (funds.amount * dec_frac()) / dec_frac() / dec_frac()) as u128 },
                ps@[k].address,
            ),
        decreases ps@.len() - i,
    {
        let config = &ps[i];
        let dec = match config.weight.checked_mul(whole) {
            Ok(v) => v,
            Err(e) => {
                assert(!share_fits(funds, ps@[i as int]));
                return Err(ContractError::OverflowError(e));
            },
        };
        out.push((Coin { denom: funds.denom.clone(), amount: dec.to_uint_floor() }, config.address.clone()));
        i = i + 1;
    }
    proof {
        let v = Seq::new(ps@.len(), |k: int| (
            Coin { denom: funds.denom, amount: (ps@[k].weight@ * (funds.amount * dec_frac()) / dec_frac() / dec_frac()) as u128 },
            ps@[k].address,
        ));
        assert(out@ =~= v);
    }
    Ok(out)
}

} // verus!

verus! {

/// `e` is a generic error with the message `msg`.
pub open spec fn is_generic_err(e: ContractError, msg: Seq<char>) -> bool {
    e matches ContractError::Std(crate::cl_vault::error::StdError::GenericErr { msg: m }) && m@ == msg
}

/// The first summed token weight is that of the first denomination, and
/// holds at least its first weight.
proof fn lemma_token_weights_head(s: Seq<CoinWeight>)
    requires
        s.len() > 0,
        token_weights(s) is Some,
    ensures
        token_weights(s)->Some_0.len() > 0,
        token_weights(s)->Some_0[0].denom@ == s[0].denom@,
        token_weights(s)->Some_0[0].weight@ >= s[0].weight@,
    decreases s.len(),
{
    let p = s.drop_last();
    if p.len() == 0 {
        assert(token_weights(p) == Some(Seq::<CoinWeight>::empty()));
        assert(!is_first_weight(Seq::<CoinWeight>::empty(), s.last().denom@, 0));
    } else {
        lemma_token_weights_head(p);
        let acc = token_weights(p)->Some_0;
        assert(p[0] == s[0]);
        if exists|i: int| is_first_weight(acc, s.last().denom@, i) {
            let i = choose|i: int| is_first_weight(acc, s.last().denom@, i);
            if i == 0 {
                assert(token_weights(s)->Some_0[0].weight@ == acc[0].weight@ + s.last().weight@);
            }
        }
    }
}

/// What splitting `funds` over the deposit weights `ws` answers: refused
/// with an error where the weights are empty or start at zero, where no bond
/// or no deposit results, and with the errors of the steps; else the coins to
/// deposit and the remainder to return.
pub open spec fn ratio_payment(funds: Seq<Coin>, ws: Seq<CoinWeight>, r: Result<(Vec<Coin>, Vec<Coin>), ContractError>) -> bool {
    if ws.len() == 0 {
        r == Err::<(Vec<Coin>, Vec<Coin>), ContractError>(ContractError::CoinsWeightVectorIsEmpty)
    } else if ws[0].weight@ == 0 {
        r is Err && is_generic_err(r->Err_0, "Deposit amount weight for primitive is zero"@)
    } else {
        match token_weights(ws) {
            None => r == Err::<(Vec<Coin>, Vec<Coin>), ContractError>(
                ContractError::OverflowError(OverflowError { operation: OverflowOperation::Add })),
            Some(tw) => match max_bond_of(funds, tw) {
                Err(e) => r == Err::<(Vec<Coin>, Vec<Coin>), ContractError>(e),
                Ok(m) => if m == 0 || m == pow2_128() - 1 {
                    r is Err && is_generic_err(r->Err_0,
                        "Unable to correctly determine max_bond, value: "@ + decimal_display(m))
                } else {
                    match deposit_split(funds, m, ws) {
                        Err(e) => r == Err::<(Vec<Coin>, Vec<Coin>), ContractError>(e),
                        Ok(v) => if v.0.len() == 0 {
                            r == Err::<(Vec<Coin>, Vec<Coin>), ContractError>(ContractError::CoinsVectorIsEmpty)
                        } else if v.0[0].amount == 0 {
                            r is Err && is_generic_err(r->Err_0, "we failed here"@)
                        } else {
                            r is Ok && r->Ok_0.0@ == v.0 && r->Ok_0.1@ == v.1
                        },
                    }
                },
            },
        }
    }
}

/// The coins to deposit and the remainder, where splitting `funds` over the
/// deposit weights `ws` succeeds.
pub open spec fn ratio_split(funds: Seq<Coin>, ws: Seq<CoinWeight>) -> Option<(Seq<Coin>, Seq<Coin>)> {
    if ws.len() == 0 || ws[0].weight@ == 0 {
        None
    } else {
        match token_weights(ws) {
            None => None,
            Some(tw) => match max_bond_of(funds, tw) {
                Err(_) => None,
                Ok(m) => if m == 0 || m == pow2_128() - 1 {
                    None
                } else {
                    match deposit_split(funds, m, ws) {
                        Err(_) => None,
                        Ok(v) => if v.0.len() == 0 || v.0[0].amount == 0 { None } else { Some(v) },
                    }
                },
            },
        }
    }
}

/// Splits a payment over the given deposit weights: it finds the largest
/// bond the payment allows at the summed token weights, then the coins to
/// deposit and the remainder to return (see `ratio_payment`).
pub fn may_pay_with_ratio(funds: &Vec<Coin>, deposit_amount_ratio: &CoinRatio)
    -> (r: Result<(Vec<Coin>, Vec<Coin>), ContractError>)
    ensures
        ratio_payment(funds@, deposit_amount_ratio.ratio@, r),
{
    if deposit_amount_ratio.ratio.len() == 0 {
        return Err(ContractError::CoinsWeightVectorIsEmpty);
    }
    if deposit_amount_ratio.ratio[0].weight.is_zero() {
        return Err(ContractError::Std(crate::cl_vault::error::StdError::GenericErr {
            msg: "Deposit amount weight for primitive is zero".to_string(),
        }));
    }
    let token_weights = get_token_amount_weights(&deposit_amount_ratio.ratio)?;
    proof { lemma_token_weights_head(deposit_amount_ratio.ratio@); }
    if token_weights.len() == 0 {
        return Err(ContractError::TokenWeightsIsEMpty);
    }
    if token_weights[0].weight.is_zero() {
        return Err(ContractError::Std(crate::cl_vault::error::StdError::GenericErr {
            msg: concat("token weight is zero for ", token_weights[0].denom.as_str()),
        }));
    }
    let max_bond = get_max_bond(funds, &token_weights)?;
    if max_bond.is_zero() || max_bond.eq_value(&Decimal::max()) {
        let shown = cw_decimal_text(max_bond);
        return Err(ContractError::Std(crate::cl_vault::error::StdError::GenericErr {
            msg: concat("Unable to correctly determine max_bond, value: ", shown.as_str()),
        }));
    }
    let (coins, remainder) = get_deposit_and_remainder_for_ratio(funds, max_bond, deposit_amount_ratio)?;
    if coins.len() == 0 {
        return Err(ContractError::CoinsVectorIsEmpty);
    }
    if coins[0].amount == 0 {
        return Err(ContractError::Std(crate::cl_vault::error::StdError::GenericErr {
            msg: "we failed here".to_string(),
        }));
    }
    Ok((coins, remainder))
}

} // verus!

verus! {

/// What a primitive reports: the denomination and amount of its balance,
/// and the total of its shares.
#[derive(Debug, Clone, PartialEq, Eq)]
pub struct PrimitiveBalance {
    pub denom: String,
    pub balance: u128,
    pub supply: u128,
}

/// The sum of the weights, in atomic units.
pub open spec fn weight_sum(ws: Seq<CoinWeight>) -> int
    decreases ws.len(),
{
    if ws.len() == 0 { 0 } else { weight_sum(ws.drop_last()) + ws.last().weight@ }
}

/// Each weight divided by the sum of the weights.
pub open spec fn normalized(ws: Seq<CoinWeight>) -> Seq<CoinWeight> {
    Seq::new(ws.len(), |i: int| CoinWeight {
        denom: ws[i].denom,
        weight: Decimal { atomics: (ws[i].weight@ * dec_frac() / weight_sum(ws)) as u128 },
    })
}

proof fn lemma_weight_sum_prefix(ws: Seq<CoinWeight>, k: int)
    requires
        0 <= k <= ws.len(),
    ensures
        weight_sum(ws.subrange(0, k)) <= weight_sum(ws),
        weight_sum(ws.subrange(0, k)) >= 0,
    decreases ws.len() - k,
{
    if k < ws.len() {
        lemma_weight_sum_prefix(ws, k + 1);
        assert(ws.subrange(0, k + 1).drop_last() =~= ws.subrange(0, k));
    } else {
        assert(ws.subrange(0, k) =~= ws);
    }
    lemma_weight_sum_nonneg(ws.subrange(0, k));
}

proof fn lemma_weight_sum_nonneg(ws: Seq<CoinWeight>)
    ensures
        weight_sum(ws) >= 0,
    decreases ws.len(),
{
    if ws.len() > 0 {
        lemma_weight_sum_nonneg(ws.drop_last());
    }
}

impl CoinRatio {
    /// Divides each weight by the sum of the weights. A sum that overflows or
    /// is zero, or a quotient that overflows, is an error, and then the ratio
    /// is unchanged.
    pub fn normalize(&mut self) -> (r: Result<(), ContractError>)
        ensures
            ({
                let ws = old(self).ratio@;
                if weight_sum(ws) >= pow2_128() {
                    r == Err::<(), ContractError>(ContractError::OverflowError(OverflowError { operation: OverflowOperation::Add }))
                        && final(self).ratio@ == ws
                } else if weight_sum(ws) == 0 {
                    r == Err::<(), ContractError>(ContractError::MultiplyRatioError(CheckedFromRatioError::DivideByZero))
                        && final(self).ratio@ == ws
                } else if exists|i: int| 0 <= i < ws.len() && #[trigger] ws[i].weight@ * dec_frac() / weight_sum(ws) >= pow2_128() {
                    r == Err::<(), ContractError>(ContractError::MultiplyRatioError(CheckedFromRatioError::Overflow))
                        && final(self).ratio@ == ws
                } else {
                    r is Ok && final(self).ratio@ == normalized(ws)
                }
            }),
    {
        let ghost ws = self.ratio@;
        let n = self.ratio.len();
        let mut total = Decimal::zero();
        let mut i: usize = 0;
        while i < n
            invariant
                n == ws.len(),
                ws == self.ratio@,
                i <= n,
                total@ == weight_sum(ws.subrange(0, i as int)),
            decreases n - i,
        {
            proof {
                assert(ws.subrange(0, i + 1).drop_last() =~= ws.subrange(0, i as int));
            }
            total = match total.checked_add(self.ratio[i].weight) {
                Ok(v) => v,
                Err(e) => {
                    proof {
                        lemma_weight_sum_prefix(ws, i + 1);
                    }
                    return Err(ContractError::OverflowError(e));
                },
            };
            i = i + 1;
        }
        assert(ws.subrange(0, n as int) =~= ws);
        if total.is_zero() {
            return Err(ContractError::MultiplyRatioError(CheckedFromRatioError::DivideByZero));
        }
        let mut out: Vec<CoinWeight> = Vec::new();
        let mut j: usize = 0;
        while j < n
            invariant
                n == ws.len(),
                ws == self.ratio@,
                j <= n,
                total@ == weight_sum(ws),
                total@ > 0,
                out@.len() == j,
                forall|k: int| 0 <= k < j ==> #[trigger] ws[k].weight@ * dec_frac() / weight_sum(ws) < pow2_128(),
                forall|k: int| 0 <= k < j ==> #[trigger] out@[k] == normalized(ws)[k],
            decreases n - j,
        {
            let cw = &self.ratio[j];
            let w = match cw.weight.checked_div(total) {
                Ok(v) => v,
                Err(e) => {
                    assert(ws[j as int].weight@ * dec_frac() / weight_sum(ws) >= pow2_128());
                    return Err(ContractError::MultiplyRatioError(e));
                },
            };
            out.push(CoinWeight { denom: cw.denom.clone(), weight: w });
            j = j + 1;
        }
        assert(out@ =~= normalized(ws));
        self.ratio = out;
        Ok(())
    }
}

/// A primitive's report is consistent: it holds a balance exactly when it has shares.
pub open spec fn consistent(b: PrimitiveBalance) -> bool {
    (b.supply == 0) == (b.balance == 0)
}

/// The weight a primitive gets from its report: its balance per share
/// (one when it holds nothing) times its configured weight, in atomic units.
pub open spec fn primitive_weight(b: PrimitiveBalance, pc: PrimitiveConfig) -> int {
    let ratio = if b.supply == 0 { dec_frac() } else { b.balance * dec_frac() / (b.supply as int) };
    ratio * pc.weight@ / dec_frac()
}

/// The report of primitive `i` gives a weight.
pub open spec fn weight_ok(bs: Seq<PrimitiveBalance>, ps: Seq<PrimitiveConfig>, i: int) -> bool {
    consistent(bs[i]) && primitive_weight(bs[i], ps[i]) < pow2_128()
}

/// `k` is the first primitive whose report gives no weight.
pub open spec fn is_first_bad(bs: Seq<PrimitiveBalance>, ps: Seq<PrimitiveConfig>, k: int) -> bool {
    &&& 0 <= k < ps.len()
    &&& !weight_ok(bs, ps, k)
    &&& forall|j: int| 0 <= j < k ==> weight_ok(bs, ps, j)
}

/// The deposit weights of the primitives before normalizing, one per
/// primitive under the denomination of its balance, if every report gives one.
pub open spec fn raw_weights(bs: Seq<PrimitiveBalance>, ps: Seq<PrimitiveConfig>) -> Option<Seq<CoinWeight>> {
    if forall|i: int| 0 <= i < ps.len() ==> #[trigger] weight_ok(bs, ps, i) {
        Some(Seq::new(ps.len(), |i: int| CoinWeight {
            denom: bs[i].denom,
            weight: Decimal { atomics: primitive_weight(bs[i], ps[i]) as u128 },
        }))
    } else {
        None
    }
}

/// The outcome of normalizing the weights `ws`, as `CoinRatio::normalize` gives it.
pub open spec fn normalize_outcome(ws: Seq<CoinWeight>) -> Result<Seq<CoinWeight>, ContractError> {
    if weight_sum(ws) >= pow2_128() {
        Err(ContractError::OverflowError(OverflowError { operation: OverflowOperation::Add }))
    } else if weight_sum(ws) == 0 {
        Err(ContractError::MultiplyRatioError(CheckedFromRatioError::DivideByZero))
    } else if exists|i: int| 0 <= i < ws.len() && #[trigger] ws[i].weight@ * dec_frac() / weight_sum(ws) >= pow2_128() {
        Err(ContractError::MultiplyRatioError(CheckedFromRatioError::Overflow))
    } else {
        Ok(normalized(ws))
    }
}

/// The deposit weights of the primitives: each primitive's balance per share
/// times its weight, normalized to add up to one. The first primitive that
/// holds shares but no balance, or a balance but no shares, is refused, as
/// is one whose weight overflows.
pub fn get_deposit_amount_weights(primitives: &Vec<PrimitiveConfig>, balances: &Vec<PrimitiveBalance>)
    -> (r: Result<CoinRatio, ContractError>)
    requires
        balances@.len() == primitives@.len(),
        forall|i: int| 0 <= i < balances@.len() && (#[trigger] balances@[i]).supply != 0 ==>
            balances@[i].balance * dec_frac() / (balances@[i].supply as int) < pow2_128(),
    ensures
        match raw_weights(balances@, primitives@) {
            Some(ws) => match normalize_outcome(ws) {
                Ok(v) => r is Ok && r->Ok_0.ratio@ == v,
                Err(e) => r == Err::<CoinRatio, ContractError>(e),
            },
            None => {
                let k = choose|k: int| is_first_bad(balances@, primitives@, k);
                &&& r is Err
                &&& !consistent(balances@[k]) ==> is_generic_err(r->Err_0,
                    "Unexpected primitive state, either both supply and balance should be zero, or neither."@)
                &&& consistent(balances@[k]) ==> r->Err_0 == ContractError::OverflowError(OverflowError { operation: OverflowOperation::Mul })
            },
        },
{
    let mut weights: Vec<CoinWeight> = Vec::new();
    let mut i: usize = 0;
    while i < primitives.len()
        invariant
            balances@.len() == primitives@.len(),
            forall|k: int| 0 <= k < balances@.len() && (#[trigger] balances@[k]).supply != 0 ==>
                balances@[k].balance * dec_frac() / (balances@[k].supply as int) < pow2_128(),
            i <= primitives@.len(),
            weights@.len() == i,
            forall|k: int| 0 <= k < i ==> weight_ok(balances@, primitives@, k),
            forall|k: int| 0 <= k < i ==> #[trigger] weights@[k] == (CoinWeight {
                denom: balances@[k].denom,
                weight: Decimal { atomics: primitive_weight(balances@[k], primitives@[k]) as u128 },
            }),
        decreases primitives@.len() - i,
    {
        let b = &balances[i];
        let pc = &primitives[i];
        if (b.supply == 0) != (b.balance == 0) {
            proof { lemma_first_bad(balances@, primitives@, i as int); }
            return Err(ContractError::Std(crate::cl_vault::error::StdError::GenericErr {
                msg: "Unexpected primitive state, either both supply and balance should be zero, or neither.".to_string(),
            }));
        }
        let ratio = if b.supply == 0 {
            Decimal::one()
        } else {
            assert(balances@[i as int].supply != 0);
            Decimal::from_ratio(b.balance, b.supply)
        };
        let weight = match ratio.checked_mul(pc.weight) {
            Ok(v) => v,
            Err(e) => {
                proof { lemma_first_bad(balances@, primitives@, i as int); }
                return Err(ContractError::OverflowError(e));
            },
        };
        weights.push(CoinWeight { denom: b.denom.clone(), weight });
        i = i + 1;
    }
    let ghost ws = weights@;
    proof {
        assert forall|k: int| 0 <= k < primitives@.len() implies #[trigger] weight_ok(balances@, primitives@, k) by {}
        assert(ws =~= raw_weights(balances@, primitives@)->Some_0);
    }
    let mut ratio = CoinRatio { ratio: weights };
    match ratio.normalize() {
        Ok(()) => {},
        Err(e) => { return Err(e); },
    }
    Ok(ratio)
}

/// A primitive that gives no weight, after ones that all do, is the first bad one.
proof fn lemma_first_bad(bs: Seq<PrimitiveBalance>, ps: Seq<PrimitiveConfig>, i: int)
    requires
        0 <= i < ps.len(),
        !weight_ok(bs, ps, i),
        forall|j: int| 0 <= j < i ==> weight_ok(bs, ps, j),
    ensures
        raw_weights(bs, ps) is None,
        (choose|k: int| is_first_bad(bs, ps, k)) == i,
{
    assert(is_first_bad(bs, ps, i));
    assert forall|k: int| is_first_bad(bs, ps, k) implies k == i by {
        if k < i {
            assert(weight_ok(bs, ps, k));
        } else if k > i {
            assert(weight_ok(bs, ps, i));
        }
    }
}

} // verus!

verus! {

/// Adding a coin at the end adds its amount to its denomination's total.
proof fn lemma_total_of_push(coins: Seq<Coin>, c: Coin, d: Seq<char>)
    ensures
        total_of(coins.push(c), d) == total_of(coins, d) + (if c.denom@ == d { c.amount as int } else { 0 }),
    decreases coins.len(),
{
    if coins.len() > 0 {
        lemma_total_of_push(coins.drop_first(), c, d);
        assert(coins.push(c).drop_first() =~= coins.drop_first().push(c));
        assert(coins.push(c)[0] == coins[0]);
    } else {
        assert(coins.push(c).drop_first() =~= Seq::<Coin>::empty());
        assert(total_of(Seq::<Coin>::empty(), d) == 0);
        assert(coins.push(c)[0] == c);
    }
}

/// The remainder holds the funds' coins in order, each less what was
/// deposited of its denomination.
pub open spec fn conserves(funds: Seq<Coin>, deposit: Seq<Coin>, remainder: Seq<Coin>) -> bool {
    &&& remainder.len() == funds.len()
    &&& forall|j: int| 0 <= j < funds.len() ==> {
        &&& (#[trigger] remainder[j]).denom == funds[j].denom
        &&& remainder[j].amount + total_of(deposit, funds[j].denom@) == funds[j].amount
    }
}

/// Splitting a payment by a ratio loses nothing: every coin of the remainder
/// plus what was deposited of its denomination is the coin that was paid.
pub proof fn law_deposit_conserves(funds: Seq<Coin>, max_bond: int, ratio: Seq<CoinWeight>)
    requires
        deposit_split(funds, max_bond, ratio) is Ok,
    ensures
        conserves(funds, deposit_split(funds, max_bond, ratio)->Ok_0.0, deposit_split(funds, max_bond, ratio)->Ok_0.1),
    decreases ratio.len(),
{
    if ratio.len() == 0 {
        assert forall|j: int| 0 <= j < funds.len() implies total_of(Seq::<Coin>::empty(), funds[j].denom@) == 0 by {}
    } else {
        let prev = deposit_split(funds, max_bond, ratio.drop_last());
        law_deposit_conserves(funds, max_bond, ratio.drop_last());
        let acc = prev->Ok_0;
        let r = ratio.last();
        if r.weight@ != 0 {
            let a = paid_amount(funds, r.denom@)->Some_0;
            let x = (max_bond * r.weight@ / dec_frac() / dec_frac()) as u128;
            let rem = reduce_denom(acc.1, r.denom@, x)->Some_0;
            let c = Coin { denom: r.denom, amount: x };
            assert forall|j: int| 0 <= j < funds.len() implies {
                &&& (#[trigger] rem[j]).denom == funds[j].denom
                &&& rem[j].amount + total_of(acc.0.push(c), funds[j].denom@) == funds[j].amount
            } by {
                lemma_total_of_push(acc.0, c, funds[j].denom@);
            }
        }
    }
}

} // verus!
