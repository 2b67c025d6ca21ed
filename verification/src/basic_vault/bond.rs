use vstd::prelude::*;
use crate::basic_vault::callback::{unlock_passed, can_unbond_after_claim, push_pending_id, BondingStub, UnbondingClaim, UnbondingStub};
use crate::basic_vault::error::{ContractError, PaymentError};
use crate::basic_vault::execute::{may_pay_with_ratio, ratio_payment, ratio_split, CoinRatio};
use crate::basic_vault::state::{Cap, InvestmentInfo, PrimitiveConfig};
use crate::coin::Coin;
use crate::math::decimal::dec_frac;
use crate::math::uint::{pow2_128, CheckedFromRatioError, OverflowError, OverflowOperation};
use crate::text::{decimal_text, u128_text};

verus! {

/// A message that sends no funds passes; any funds are refused.
pub fn nonpayable(funds: &Vec<Coin>) -> (r: Result<(), PaymentError>)
    ensures
        r == if funds@.len() == 0 { Ok::<(), PaymentError>(()) } else { Err(PaymentError::NonPayable) },
{
    if funds.len() == 0 { Ok(()) } else { Err(PaymentError::NonPayable) }
}

/// The amount of exactly one coin, of denomination `denom`, with a positive
/// amount: no coin or a zero one, several coins, or another denomination is
/// refused.
pub fn must_pay(funds: &Vec<Coin>, denom: &String) -> (r: Result<u128, PaymentError>)
    ensures
        r == if funds@.len() == 0 {
            Err::<u128, PaymentError>(PaymentError::NoFunds)
        } else if funds@.len() > 1 {
            Err(PaymentError::MultipleDenoms)
        } else if funds@[0].amount == 0 {
            Err(PaymentError::NoFunds)
        } else if funds@[0].denom@ != denom@ {
            Err(PaymentError::MissingDenom(*denom))
        } else {
            Ok(funds@[0].amount)
        },
{
    if funds.len() == 0 {
        return Err(PaymentError::NoFunds);
    }
    if funds.len() > 1 {
        return Err(PaymentError::MultipleDenoms);
    }
    if funds[0].amount == 0 {
        return Err(PaymentError::NoFunds);
    }
    if funds[0].denom != *denom {
        return Err(PaymentError::MissingDenom(denom.clone()));
    }
    Ok(funds[0].amount)
}

/// What a bond does once the payment is split: the funds sent to each
/// primitive, the bond's stubs, the remainder returned to the depositor, the
/// cap after the deposit, the recipient's pending bond ids, the bond's id and
/// the next sequence number.
#[derive(Debug, Clone, PartialEq, Eq)]
pub struct BondPlan {
    pub bonds: Vec<(Coin, String)>,
    pub stubs: Vec<BondingStub>,
    pub refund: Vec<Coin>,
    pub cap: Cap,
    pub pending_ids: Vec<String>,
    pub bond_id: String,
    pub next_seq: u128,
}

/// The deposit of each primitive: the `i`-th coin goes to the `i`-th
/// primitive, as far as both lists go.
pub open spec fn zip_bonds(coins: Seq<Coin>, ps: Seq<PrimitiveConfig>) -> Seq<(Coin, String)> {
    let n = if coins.len() < ps.len() { coins.len() } else { ps.len() };
    Seq::new(n, |i: int| (coins[i], ps[i].address))
}

/// The sum of the deposited amounts.
pub open spec fn bonded_total(s: Seq<(Coin, String)>) -> int
    decreases s.len(),
{
    if s.len() == 0 { 0 } else { bonded_total(s.drop_last()) + s.last().0.amount }
}

/// The coins with a positive amount, in order.
pub open spec fn nonzero_coins(s: Seq<Coin>) -> Seq<Coin> {
    s.filter(|c: Coin| c.amount != 0)
}

proof fn lemma_nonzero_coins_empty()
    ensures
        nonzero_coins(Seq::<Coin>::empty()) == Seq::<Coin>::empty(),
{
    reveal(Seq::filter);
    assert(nonzero_coins(Seq::<Coin>::empty()) =~= Seq::<Coin>::empty());
}

proof fn lemma_nonzero_coins_push(s: Seq<Coin>, x: Coin)
    ensures
        nonzero_coins(s.push(x)) == (if x.amount != 0 { nonzero_coins(s).push(x) } else { nonzero_coins(s) }),
{
    reveal(Seq::filter);
    assert(s.push(x).drop_last() =~= s);
}

proof fn lemma_bonded_total_prefix(s: Seq<(Coin, String)>, i: int)
    requires
        0 <= i <= s.len(),
    ensures
        bonded_total(s.take(i)) <= bonded_total(s),
    decreases s.len(),
{
    if i < s.len() {
        lemma_bonded_total_prefix(s.drop_last(), i);
        assert(s.drop_last().take(i) =~= s.take(i));
    } else {
        assert(s.take(i) =~= s);
    }
}

/// Plans a bond of the sent `funds`: they are split over the deposit
/// weights of the primitives (`may_pay_with_ratio`), the `i`-th deposited
/// coin going to the `i`-th primitive and the positive part of the remainder
/// back to the depositor; the sum of the deposited amounts is counted
/// against the cap; the bond is recorded under its id (the sequence number)
/// among the recipient's pending ids, and the sequence moves on. The split's
/// errors come first, then the cap's, then an exhausted sequence.
pub fn plan_bond(invest: InvestmentInfo, cap: Cap, funds: &Vec<Coin>, deposit_amount_ratio: &CoinRatio, bond_seq: u128,
    pending_ids: Option<Vec<String>>) -> (r: Result<BondPlan, ContractError>)
    ensures
        ({
            let ws = deposit_amount_ratio.ratio@;
            match ratio_split(funds@, ws) {
                None => r is Err && ratio_payment(funds@, ws, Err::<(Vec<Coin>, Vec<Coin>), ContractError>(r->Err_0)),
                Some(v) => {
                    let bonds = zip_bonds(v.0, invest.primitives@);
                    let total = bonded_total(bonds);
                    if total > u128::MAX || cap.spec_current() + total > u128::MAX {
                        r == Err::<BondPlan, ContractError>(ContractError::OverflowError(OverflowError { operation: OverflowOperation::Add }))
                    } else if cap.spec_current() + total > cap.spec_total() {
                        r == Err::<BondPlan, ContractError>(ContractError::OverCap)
                    } else if bond_seq == u128::MAX {
                        r == Err::<BondPlan, ContractError>(ContractError::OverflowError(OverflowError { operation: OverflowOperation::Add }))
                    } else {
                        r matches Ok(plan) && {
                            &&& plan.bonds@ == bonds
                            &&& plan.stubs@.len() == bonds.len()
                            &&& forall|i: int| 0 <= i < bonds.len() ==> {
                                &&& (#[trigger] plan.stubs@[i]).address == bonds[i].1
                                &&& plan.stubs@[i].bond_response is None
                                &&& plan.stubs@[i].primitive_value is None
                                &&& plan.stubs@[i].amount == bonds[i].0.amount
                            }
                            &&& plan.refund@ == nonzero_coins(v.1)
                            &&& plan.cap.spec_current() == cap.spec_current() + total
                            &&& plan.cap.spec_total() == cap.spec_total()
                            &&& plan.cap.spec_cap_admin() == cap.spec_cap_admin()
                            &&& plan.bond_id@ == decimal_text(bond_seq as nat)
                            &&& plan.pending_ids@ == match pending_ids {
                                Some(ids) => ids@.push(plan.bond_id),
                                None => seq![plan.bond_id],
                            }
                            &&& plan.next_seq == bond_seq + 1
                        }
                    }
                },
            }
        }),
{
    let ghost ws = deposit_amount_ratio.ratio@;
    let paid = may_pay_with_ratio(funds, deposit_amount_ratio);
    let (coins, remainder) = match paid {
        Ok(v) => v,
        Err(e) => { return Err(e); },
    };
    assert(ratio_split(funds@, ws) == Some((coins@, remainder@)));
    let ps = &invest.primitives;
    let ghost zb = zip_bonds(coins@, ps@);
    let n: usize = if coins.len() < ps.len() { coins.len() } else { ps.len() };
    let mut bonds: Vec<(Coin, String)> = Vec::new();
    let mut stubs: Vec<BondingStub> = Vec::new();
    let mut total: u128 = 0;
    let mut i: usize = 0;
    while i < n
        invariant
            ratio_split(funds@, deposit_amount_ratio.ratio@) == Some((coins@, remainder@)),
            n == zb.len(),
            n <= coins@.len(),
            n <= ps@.len(),
            zb == zip_bonds(coins@, ps@),
            zb == zip_bonds(coins@, invest.primitives@),
            i <= n,
            bonds@ == zb.take(i as int),
            total == bonded_total(zb.take(i as int)),
            stubs@.len() == i,
            forall|k: int| 0 <= k < i ==> {
                &&& (#[trigger] stubs@[k]).address == zb[k].1
                &&& stubs@[k].bond_response is None
                &&& stubs@[k].primitive_value is None
                &&& stubs@[k].amount == zb[k].0.amount
            },
        decreases n - i,
    {
        proof {
            assert(zb.take(i + 1).drop_last() =~= zb.take(i as int));
        }
        let c = coins[i].duplicate();
        let a = ps[i].address.clone();
        assert(c == zb[i as int].0);
        assert(zb.take(i + 1).last() == zb[i as int]);
        total = match total.checked_add(c.amount) {
            Some(t) => t,
            None => {
                proof {
                    lemma_bonded_total_prefix(zb, i + 1);
                }
                return Err(ContractError::OverflowError(OverflowError { operation: OverflowOperation::Add }));
            },
        };
        stubs.push(BondingStub { address: a.clone(), bond_response: None, primitive_value: None, amount: c.amount });
        bonds.push((c, a));
        proof {
            assert(bonds@ =~= zb.take(i + 1));
        }
        i = i + 1;
    }
    assert(zb.take(n as int) =~= zb);
    let cap = match cap.update_current(total) {
        Ok(c) => c,
        Err(e) => { return Err(e); },
    };
    if bond_seq == u128::MAX {
        return Err(ContractError::OverflowError(OverflowError { operation: OverflowOperation::Add }));
    }
    let mut refund: Vec<Coin> = Vec::new();
    let mut j: usize = 0;
    proof {
        assert(remainder@.take(0) =~= Seq::<Coin>::empty());
        lemma_nonzero_coins_empty();
    }
    while j < remainder.len()
        invariant
            j <= remainder@.len(),
            refund@ == nonzero_coins(remainder@.take(j as int)),
        decreases remainder@.len() - j,
    {
        proof {
            assert(remainder@.take(j + 1) =~= remainder@.take(j as int).push(remainder@[j as int]));
            lemma_nonzero_coins_push(remainder@.take(j as int), remainder@[j as int]);
        }
        if remainder[j].amount != 0 {
            refund.push(remainder[j].duplicate());
        }
        j = j + 1;
    }
    assert(remainder@.take(remainder@.len() as int) =~= remainder@);
    let bond_id = u128_text(bond_seq);
    let pending = push_pending_id(pending_ids, bond_id.clone());
    Ok(BondPlan { bonds, stubs, refund, cap, pending_ids: pending, bond_id, next_seq: bond_seq + 1 })
}

proof fn lemma_filter_push<A>(s: Seq<A>, x: A, p: spec_fn(A) -> bool)
    ensures
        s.push(x).filter(p) == (if p(x) { s.filter(p).push(x) } else { s.filter(p) }),
        Seq::<A>::empty().filter(p) == Seq::<A>::empty(),
{
    reveal(Seq::filter);
    assert(s.push(x).drop_last() =~= s);
}

/// The primitives to ask to finish an unbond: those whose stub's unlock time
/// passed and whose record of the unbond (`claims`, asked only of those)
/// allows it, in the order of the stubs.
pub fn select_unbondable(stubs: &Vec<UnbondingStub>, claims: &Vec<Option<UnbondingClaim>>, now: u64) -> (r: Vec<String>)
    requires
        claims@.len() == stubs@.len(),
    ensures
        r@.len() <= stubs@.len(),
        ({
            let keep = |i: int| (match stubs@[i].unlock_time { Some(t) => t < now, None => false })
                && (match claims@[i] { None => true, Some(c) => !c.attempted && c.unlock_time < now });
            r@.map_values(|a: String| a@) == Seq::new(stubs@.len() as nat, |i: int| i).filter(keep).map_values(|i: int| stubs@[i].address@)
        }),
{
    let ghost keep = |i: int| (match stubs@[i].unlock_time { Some(t) => t < now, None => false })
        && (match claims@[i] { None => true, Some(c) => !c.attempted && c.unlock_time < now });
    let ghost idx = Seq::new(stubs@.len() as nat, |i: int| i);
    let mut out: Vec<String> = Vec::new();
    let mut i: usize = 0;
    proof {
        lemma_filter_push(Seq::empty(), 0, keep);
        assert(idx.subrange(0, 0) =~= Seq::<int>::empty());
        assert(out@.map_values(|a: String| a@) =~= Seq::<Seq<char>>::empty());
    }
    while i < stubs.len()
        invariant
            i <= stubs@.len(),
            claims@.len() == stubs@.len(),
            idx == Seq::new(stubs@.len() as nat, |i: int| i),
            forall|k: int| #[trigger] keep(k) == ((match stubs@[k].unlock_time { Some(t) => t < now, None => false })
                && (match claims@[k] { None => true, Some(c) => !c.attempted && c.unlock_time < now })),
            out@.map_values(|a: String| a@) == idx.subrange(0, i as int).filter(keep).map_values(|k: int| stubs@[k].address@),
        decreases stubs@.len() - i,
    {
        proof {
            assert(idx.subrange(0, i + 1).drop_last() =~= idx.subrange(0, i as int));
            assert(idx.subrange(0, i + 1).last() == i);
            lemma_filter_push(idx.subrange(0, i as int), i as int, keep);
        }
        let ghost prev = idx.subrange(0, i as int).filter(keep);
        let ghost old_out = out@;
        proof {
            assert(idx.subrange(0, i + 1) =~= idx.subrange(0, i as int).push(i as int));
        }
        if unlock_passed(&stubs[i], now) && can_unbond_after_claim(claims[i], now) {
            out.push(stubs[i].address.clone());
            proof {
                assert(keep(i as int));
                assert(idx.subrange(0, i + 1).filter(keep) == prev.push(i as int));
                assert(prev.push(i as int).map_values(|k: int| stubs@[k].address@)
                    =~= prev.map_values(|k: int| stubs@[k].address@).push(stubs@[i as int].address@));
                assert(out@.map_values(|a: String| a@) =~= old_out.map_values(|a: String| a@).push(stubs@[i as int].address@));
            }
        } else {
            proof {
                assert(!keep(i as int));
                assert(idx.subrange(0, i + 1).filter(keep) == prev);
            }
        }
        i = i + 1;
    }
    assert(idx.subrange(0, stubs@.len() as int) =~= idx);
    proof {
        idx.lemma_filter_len(keep);
        assert(out@.len() == out@.map_values(|a: String| a@).len());
    }
    out
}

} // verus!
