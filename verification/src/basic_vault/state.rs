use vstd::prelude::*;
use crate::basic_vault::error::ContractError;
use crate::math::decimal::{dec_frac, Decimal};
use crate::math::uint::{OverflowError, OverflowOperation};
use crate::text::{decimal_text, u128_text};

verus! {

/// A primitive that the vault deposits into, and its weight; weights are
/// normalized across primitives, so they need not add up to one.
#[derive(Debug, Clone, PartialEq, Eq)]
pub struct PrimitiveConfig {
    pub weight: Decimal,
    /// the address of the primitive contract
    pub address: String,
}

/// Investment info, fixed at instantiation.
#[derive(Debug, Clone, PartialEq, Eq)]
pub struct InvestmentInfo {
    /// the owner, who created the contract
    pub owner: String,
    /// the minimum amount pulled out to reinvest, and the minimum that can be unbonded
    pub min_withdrawal: u128,
    /// the denomination that the vault accepts
    pub deposit_denom: String,
    /// the primitives that the vault subscribes to
    pub primitives: Vec<PrimitiveConfig>,
}

/// The deposit cap of the vault: its admin, the total allowed and the amount deposited.
#[derive(Debug, Clone, PartialEq, Eq)]
pub struct Cap {
    cap_admin: String,
    total: u128,
    current: u128,
}

impl Cap {
    pub closed spec fn spec_cap_admin(&self) -> Seq<char> {
        self.cap_admin@
    }

    pub closed spec fn spec_total(&self) -> u128 {
        self.total
    }

    pub closed spec fn spec_current(&self) -> u128 {
        self.current
    }

    /// The address that may change the cap.
    pub fn cap_admin(&self) -> (r: &String)
        ensures
            r@ == self.spec_cap_admin(),
    {
        &self.cap_admin
    }

    /// The most that may be deposited.
    pub fn total(&self) -> (r: u128)
        ensures
            r == self.spec_total(),
    {
        self.total
    }

    /// What was deposited so far.
    pub fn current(&self) -> (r: u128)
        ensures
            r == self.spec_current(),
    {
        self.current
    }

    /// A cap of `total` with nothing deposited yet.
    pub fn new(admin: String, total: u128) -> (r: Cap)
        ensures
            r.spec_cap_admin() == admin@,
            r.spec_total() == total,
            r.spec_current() == 0,
    {
        Cap { cap_admin: admin, total, current: 0 }
    }

    /// The same cap under a new admin.
    pub fn update_cap_admin(self, new_cap_admin: String) -> (r: Cap)
        ensures
            r.spec_cap_admin() == new_cap_admin@,
            r.spec_total() == self.spec_total(),
            r.spec_current() == self.spec_current(),
    {
        Cap { cap_admin: new_cap_admin, total: self.total, current: self.current }
    }

    /// The same cap with a new total.
    pub fn update_total_cap(self, new_total: u128) -> (r: Cap)
        ensures
            r.spec_cap_admin() == self.spec_cap_admin(),
            r.spec_total() == new_total,
            r.spec_current() == self.spec_current(),
    {
        Cap { cap_admin: self.cap_admin, total: new_total, current: self.current }
    }

    /// Records a deposit of `to_add`; refused when the deposits would exceed
    /// the total, or overflow.
    pub fn update_current(self, to_add: u128) -> (r: Result<Cap, ContractError>)
        ensures
            match r {
                Ok(c) => self.spec_current() + to_add <= self.spec_total()
                    && c.spec_current() == self.spec_current() + to_add
                    && c.spec_total() == self.spec_total()
                    && c.spec_cap_admin() == self.spec_cap_admin(),
                Err(e) => if self.spec_current() + to_add > u128::MAX {
                    e == ContractError::OverflowError(OverflowError { operation: OverflowOperation::Add })
                } else {
                    self.spec_current() + to_add > self.spec_total() && e == ContractError::OverCap
                },
            },
    {
        let new_total = match self.current.checked_add(to_add) {
            Some(v) => v,
            None => {
                return Err(ContractError::OverflowError(OverflowError { operation: OverflowOperation::Add }));
            },
        };
        if new_total > self.total {
            return Err(ContractError::OverCap);
        }
        Ok(Cap { cap_admin: self.cap_admin, total: self.total, current: new_total })
    }
}

/// Applies an update of the cap: first a new total, if given, then a new
/// cap admin, if given. The attributes name the action, then what changed in
/// that order, then success.
pub fn update_cap(cap: Cap, new_total: Option<u128>, new_cap_admin: Option<String>) -> (r: (Cap, Vec<(String, String)>))
    ensures
        r.0.spec_total() == (match new_total { Some(t) => t, None => cap.spec_total() }),
        r.0.spec_cap_admin() == (match new_cap_admin { Some(a) => a@, None => cap.spec_cap_admin() }),
        r.0.spec_current() == cap.spec_current(),
        ({
            let changed = (if new_total is Some { 1int } else { 0int }) + (if new_cap_admin is Some { 1int } else { 0int });
            &&& r.1@.len() == 2 + changed
            &&& r.1@[0].0@ == "action"@ && r.1@[0].1@ == "update_cap"@
            &&& r.1@.last().0@ == "success"@ && r.1@.last().1@ == "true"@
            &&& (new_total matches Some(t) ==> r.1@[1].0@ == "new_total"@ && r.1@[1].1@ == decimal_text(t as nat))
            &&& (new_cap_admin matches Some(a) ==> r.1@[changed].0@ == "new_cap_admin"@ && r.1@[changed].1@ == a@)
        }),
{
    let mut c = cap;
    let mut attributes: Vec<(String, String)> = Vec::new();
    attributes.push(("action".to_string(), "update_cap".to_string()));
    if let Some(t) = new_total {
        c = c.update_total_cap(t);
        attributes.push(("new_total".to_string(), u128_text(t)));
    }
    if let Some(a) = new_cap_admin {
        attributes.push(("new_cap_admin".to_string(), a.clone()));
        c = c.update_cap_admin(a);
    }
    attributes.push(("success".to_string(), "true".to_string()));
    (c, attributes)
}

/// The vault's admin, as the chain reports it (`contract_admin`), may act;
/// anyone else, or anyone when there is no admin, is refused.
pub fn is_contract_admin(contract_admin: &Option<String>, sender: &String) -> (r: Result<(), ContractError>)
    ensures
        r == match contract_admin {
            Some(a) => if a@ == sender@ { Ok::<(), ContractError>(()) } else { Err(ContractError::Unauthorized) },
            None => Err(ContractError::Unauthorized),
        },
{
    match contract_admin {
        Some(a) => if *a == *sender { Ok(()) } else { Err(ContractError::Unauthorized) },
        None => Err(ContractError::Unauthorized),
    }
}

/// The sum of the primitives' weights, in atomic units.
pub open spec fn total_weight(ps: Seq<PrimitiveConfig>) -> int
    decreases ps.len(),
{
    if ps.len() == 0 { 0 } else { total_weight(ps.drop_last()) + ps.last().weight@ }
}

impl InvestmentInfo {
    /// Divides each primitive's weight by the sum of the weights, so that they
    /// add up to one (up to rounding). CosmWasm panics where the sum leaves
    /// the 128-bit range, or is zero with primitives to divide, which
    /// `requires` excludes.
    pub fn normalize_primitive_weights(&mut self)
        requires
            total_weight(old(self).primitives@) < crate::math::uint::pow2_128(),
            old(self).primitives@.len() > 0 ==> total_weight(old(self).primitives@) > 0,
        ensures
            final(self).owner == old(self).owner,
            final(self).min_withdrawal == old(self).min_withdrawal,
            final(self).deposit_denom == old(self).deposit_denom,
            final(self).primitives@.len() == old(self).primitives@.len(),
            forall|i: int| 0 <= i < old(self).primitives@.len() ==> {
                &&& (#[trigger] final(self).primitives@[i]).address == old(self).primitives@[i].address
                &&& final(self).primitives@[i].weight@
                    == old(self).primitives@[i].weight@ * dec_frac() / total_weight(old(self).primitives@)
            },
    {
        let ghost ps = self.primitives@;
        let n = self.primitives.len();
        let mut total = Decimal::zero();
        let mut i: usize = 0;
        while i < n
            invariant
                n == ps.len(),
                ps == self.primitives@,
                i <= n,
                total@ == total_weight(ps.subrange(0, i as int)),
                total_weight(ps) < crate::math::uint::pow2_128(),
            decreases n - i,
        {
            proof {
                assert(ps.subrange(0, i + 1).drop_last() =~= ps.subrange(0, i as int));
                lemma_total_weight_prefix(ps, i as int + 1);
            }
            total = match total.checked_add(self.primitives[i].weight) {
                Ok(v) => v,
                Err(_) => total,
            };
            i = i + 1;
        }
        assert(ps.subrange(0, n as int) =~= ps);
        let mut j: usize = 0;
        while j < n
            invariant
                n == ps.len(),
                j <= n,
                self.primitives@.len() == n,
                total@ == total_weight(ps),
                n > 0 ==> total@ > 0,
                forall|k: int| j <= k < n ==> #[trigger] self.primitives@[k] == ps[k],
                forall|k: int| 0 <= k < j ==> {
                    &&& (#[trigger] self.primitives@[k]).address == ps[k].address
                    &&& self.primitives@[k].weight@ == ps[k].weight@ * dec_frac() / total_weight(ps)
                },
                self.owner == old(self).owner,
                self.min_withdrawal == old(self).min_withdrawal,
                self.deposit_denom == old(self).deposit_denom,
            decreases n - j,
        {
            let p = &self.primitives[j];
            proof {
                lemma_weight_le_total(ps, j as int);
                let (w, t, f) = (p.weight@ as int, total@ as int, dec_frac());
                assert(w * f / t <= f) by (nonlinear_arith) requires 0 <= w <= t, t > 0, f > 0;
            }
            let w = p.weight.div(total);
            let updated = PrimitiveConfig { weight: w, address: p.address.clone() };
            self.primitives.set(j, updated);
            j = j + 1;
        }
    }
}

/// The weights of a prefix add up to no more than all of them.
proof fn lemma_total_weight_nonneg(ps: Seq<PrimitiveConfig>)
    ensures
        total_weight(ps) >= 0,
    decreases ps.len(),
{
    if ps.len() > 0 {
        lemma_total_weight_nonneg(ps.drop_last());
    }
}

proof fn lemma_weight_le_total(ps: Seq<PrimitiveConfig>, k: int)
    requires
        0 <= k < ps.len(),
    ensures
        ps[k].weight@ <= total_weight(ps),
    decreases ps.len(),
{
    lemma_total_weight_nonneg(ps.drop_last());
    if k < ps.len() - 1 {
        lemma_weight_le_total(ps.drop_last(), k);
    }
}

/// The sum of the first `k` normalised weights.
pub open spec fn normalized_prefix(ps: Seq<PrimitiveConfig>, k: int) -> int
    decreases k,
{
    if k <= 0 { 0 } else { normalized_prefix(ps, k - 1) + ps[k - 1].weight@ * dec_frac() / total_weight(ps) }
}

proof fn lemma_normalized_prefix(ps: Seq<PrimitiveConfig>, k: int)
    requires
        0 <= k <= ps.len(),
        total_weight(ps) > 0,
    ensures
        0 <= normalized_prefix(ps, k),
        normalized_prefix(ps, k) * total_weight(ps) <= total_weight(ps.subrange(0, k)) * dec_frac(),
    decreases k,
{
    if k > 0 {
        lemma_normalized_prefix(ps, k - 1);
        assert(ps.subrange(0, k).drop_last() =~= ps.subrange(0, k - 1));
        let (w, t, f) = (ps[k - 1].weight@ as int, total_weight(ps), dec_frac());
        let np = normalized_prefix(ps, k - 1);
        let sp = total_weight(ps.subrange(0, k - 1));
        assert((w * f / t) * t <= w * f && w * f / t >= 0) by (nonlinear_arith) requires w >= 0, f > 0, t > 0;
        assert((np + w * f / t) * t <= (sp + w) * f) by (nonlinear_arith)
            requires np * t <= sp * f, (w * f / t) * t <= w * f;
    }
}

/// Normalised weights add up to at most one: each primitive gets its weight
/// over the sum, rounded down.
pub proof fn law_normalized_weights_at_most_one(ps: Seq<PrimitiveConfig>)
    requires
        total_weight(ps) > 0,
    ensures
        normalized_prefix(ps, ps.len() as int) <= dec_frac(),
{
    lemma_normalized_prefix(ps, ps.len() as int);
    assert(ps.subrange(0, ps.len() as int) =~= ps);
    let (np, t, f) = (normalized_prefix(ps, ps.len() as int), total_weight(ps), dec_frac());
    assert(np <= f) by (nonlinear_arith) requires np * t <= t * f, t > 0;
}

proof fn lemma_total_weight_prefix(ps: Seq<PrimitiveConfig>, k: int)
    requires
        0 <= k <= ps.len(),
    ensures
        total_weight(ps.subrange(0, k)) <= total_weight(ps),
    decreases ps.len() - k,
{
    if k < ps.len() {
        lemma_total_weight_prefix(ps, k + 1);
        assert(ps.subrange(0, k + 1).drop_last() =~= ps.subrange(0, k));
    } else {
        assert(ps.subrange(0, k) =~= ps);
    }
}

} // verus!
