use vstd::prelude::*;
use crate::cl_vault::coinlist::{merge_all, osmo_coin_of, parsed_coins, scaled, sub_all, unparsed_error, Attribute, BankSend, CoinList, OsmoCoin};
use crate::cl_vault::error::ContractError;
use crate::coin::{copy_coins, positive_coins, sorted_by_denom, Coin};
use crate::math::decimal::{dec_frac, Decimal};
use crate::math::uint::{u128_multiply_ratio, OverflowError, OverflowOperation};

verus! {

/// Rewards collected for distribution, as a list of coins.
#[derive(Debug, Clone, PartialEq, Eq)]
pub struct Rewards(pub Vec<Coin>);

impl View for Rewards {
    type V = Seq<Coin>;

    open spec fn view(&self) -> Seq<Coin> {
        self.0@
    }
}

/// Each amount multiplied by `user / total`, rounded down.
pub open spec fn shared(s: Seq<Coin>, user: int, total: int) -> Seq<Coin> {
    Seq::new(s.len(), |i: int| Coin { denom: s[i].denom, amount: (s[i].amount * user / total) as u128 })
}

impl Rewards {
    /// No rewards.
    pub fn new() -> (r: Rewards)
        ensures
            r@ == Seq::<Coin>::empty(),
    {
        Rewards(Vec::new())
    }

    /// The rewards made of exactly these coins.
    pub fn from_coins(coins: Vec<Coin>) -> (r: Rewards)
        ensures
            r@ == coins@,
    {
        Rewards(coins)
    }

    /// The coins, in their order.
    pub fn into_coins(&self) -> (r: Vec<Coin>)
        ensures
            r@ == self@,
    {
        copy_coins(&self.0)
    }

    /// Each coin as an attribute: its denomination as the key, its amount in
    /// decimal digits as the value.
    pub fn into_attributes(self) -> (r: Vec<Attribute>)
        ensures
            r@.len() == self@.len(),
            forall|i: int| 0 <= i < r@.len() ==>
                ((#[trigger] r@[i]).key@, r@[i].value@) == osmo_coin_of(self@[i]),
    {
        CoinList(self.0).into_attributes()
    }

    /// Whether there are no coins.
    pub fn is_empty(&self) -> (r: bool)
        ensures
            r == (self@.len() == 0),
    {
        self.0.len() == 0
    }

    /// Each amount multiplied by the decimal `ratio`, rounded down.
    pub fn ratio(&self, ratio: Decimal) -> (r: Rewards)
        requires
            forall|i: int| 0 <= i < self@.len() ==> #[trigger] self@[i].amount * ratio@ / dec_frac() <= u128::MAX,
        ensures
            r@ == scaled(self@, ratio@),
    {
        let mut out: Vec<Coin> = Vec::new();
        let mut i: usize = 0;
        while i < self.0.len()
            invariant
                i <= self@.len(),
                forall|j: int| 0 <= j < self@.len() ==> #[trigger] self@[j].amount * ratio@ / dec_frac() <= u128::MAX,
                out@ =~= scaled(self@, ratio@).subrange(0, i as int),
            decreases self@.len() - i,
        {
            let c = &self.0[i];
            assert(c.amount * ratio@ / dec_frac() <= u128::MAX);
            let amount = u128_multiply_ratio(c.amount, ratio.numerator(), ratio.denominator());
            out.push(Coin { denom: c.denom.clone(), amount });
            i = i + 1;
        }
        Rewards(out)
    }

    /// A user's part of the rewards: each amount times `user_shares / total_shares`,
    /// rounded down. CosmWasm panics on zero total shares or a part beyond 128
    /// bits, which `requires` excludes.
    pub fn percentage(&self, total_shares: u128, user_shares: u128) -> (r: Rewards)
        requires
            total_shares != 0,
            forall|i: int| 0 <= i < self@.len() ==> #[trigger] self@[i].amount * user_shares / (total_shares as int) <= u128::MAX,
        ensures
            r@ == shared(self@, user_shares as int, total_shares as int),
    {
        let mut out: Vec<Coin> = Vec::new();
        let mut i: usize = 0;
        while i < self.0.len()
            invariant
                i <= self@.len(),
                total_shares != 0,
                forall|j: int| 0 <= j < self@.len() ==> #[trigger] self@[j].amount * user_shares / (total_shares as int) <= u128::MAX,
                out@ =~= shared(self@, user_shares as int, total_shares as int).subrange(0, i as int),
            decreases self@.len() - i,
        {
            let c = &self.0[i];
            assert(c.amount * user_shares / (total_shares as int) <= u128::MAX);
            let amount = u128_multiply_ratio(c.amount, user_shares, total_shares);
            out.push(Coin { denom: c.denom.clone(), amount });
            i = i + 1;
        }
        Rewards(out)
    }

    /// Adds each coin to the first coin of its denomination, or appends it.
    fn merge(&mut self, coins: Vec<Coin>) -> (r: Result<(), ContractError>)
        requires
            merge_all(old(self)@, coins@) is Some,
        ensures
            r is Ok,
            Some(final(self)@) == merge_all(old(self)@, coins@),
    {
        let mut list = CoinList(copy_coins(&self.0));
        let r = list.merge(coins);
        self.0 = list.0;
        r
    }

    /// Reads the reported coins and adds them; a malformed amount is an
    /// error, and then the rewards are unchanged.
    pub fn update_rewards(&mut self, rewards: Vec<OsmoCoin>) -> (r: Result<(), ContractError>)
        requires
            forall|v: Seq<Coin>| parsed_coins(rewards@) == Some(v) ==> merge_all(old(self)@, v) is Some,
        ensures
            match parsed_coins(rewards@) {
                Some(v) => r is Ok && Some(final(self)@) == merge_all(old(self)@, v),
                None => final(self)@ == old(self)@ && unparsed_error(rewards@, r),
            },
    {
        let mut list = CoinList(copy_coins(&self.0));
        let r = list.update_rewards(&rewards);
        self.0 = list.0;
        r
    }

    /// These rewards with `rewards` added, coin by coin in their order.
    pub fn add(self, rewards: Rewards) -> (r: Result<Rewards, ContractError>)
        requires
            merge_all(self@, rewards@) is Some,
        ensures
            r is Ok && Some(r->Ok_0@) == merge_all(self@, rewards@),
    {
        let mut me = self;
        let coins = rewards.into_coins();
        match me.merge(coins) {
            Ok(()) => Ok(me),
            Err(e) => Err(e),
        }
    }

    /// Subtracts each coin of `to_sub` from the first coin of its
    /// denomination, in order; at the first coin larger than what is held it
    /// stops with an overflow error, the earlier subtractions kept.
    pub fn sub(&mut self, to_sub: &Rewards) -> (r: Result<(), ContractError>)
        ensures
            final(self)@ == sub_all(old(self)@, to_sub@).0,
            r is Ok <==> sub_all(old(self)@, to_sub@).1,
            r is Err ==> r == Err::<(), ContractError>(ContractError::OverflowError(OverflowError { operation: OverflowOperation::Sub })),
    {
        let mut list = CoinList(copy_coins(&self.0));
        let subs = CoinList(copy_coins(&to_sub.0));
        let r = list.sub(&subs);
        self.0 = list.0;
        r
    }

    /// Takes `ratio` of every coin out and returns what was taken.
    pub fn sub_ratio(&mut self, ratio: Decimal) -> (r: Result<Rewards, ContractError>)
        requires
            forall|i: int| 0 <= i < old(self)@.len() ==> #[trigger] old(self)@[i].amount * ratio@ / dec_frac() <= u128::MAX,
        ensures
            final(self)@ == sub_all(old(self)@, scaled(old(self)@, ratio@)).0,
            match r {
                Ok(l) => sub_all(old(self)@, scaled(old(self)@, ratio@)).1 && l@ == scaled(old(self)@, ratio@),
                Err(e) => !sub_all(old(self)@, scaled(old(self)@, ratio@)).1
                    && e == ContractError::OverflowError(OverflowError { operation: OverflowOperation::Sub }),
            },
    {
        let to_sub = self.ratio(ratio);
        match self.sub(&to_sub) {
            Ok(()) => Ok(to_sub),
            Err(e) => Err(e),
        }
    }

    /// Pays out all the rewards to `recipient`, in their order, and empties them.
    pub fn claim(&mut self, recipient: &str) -> (r: Result<BankSend, ContractError>)
        ensures
            final(self)@ == Seq::<Coin>::empty(),
            r is Ok && r->Ok_0.to_address@ == recipient@ && r->Ok_0.amount@ == old(self)@,
    {
        let rewards = self.into_coins();
        self.0.clear();
        Ok(BankSend { to_address: recipient.to_string(), amount: rewards })
    }
}

/// A user's rewards after a distribution: their part of the collected
/// rewards, with what they held before added to it.
pub open spec fn distributed_to(rewards: Seq<Coin>, total_shares: int, user: (String, u128, Option<Rewards>)) -> Seq<Coin> {
    let part = shared(rewards, user.1 as int, total_shares);
    match user.2 {
        None => part,
        Some(old) => merge_all(part, old@)->Some_0,
    }
}

/// Distributes collected rewards over the users by their locked shares out
/// of `total_shares`: each user gets each amount times their shares over the
/// total, rounded down, added to what they held. CosmWasm panics on zero
/// total shares or amounts beyond 128 bits, which `requires` excludes.
pub fn distribute_rewards(rewards: &Rewards, total_shares: u128, users: Vec<(String, u128, Option<Rewards>)>)
    -> (r: Vec<(String, Rewards)>)
    requires
        total_shares != 0,
        forall|k: int, i: int| 0 <= k < users@.len() && 0 <= i < rewards@.len() ==>
            #[trigger] rewards@[i].amount * (#[trigger] users@[k]).1 / (total_shares as int) <= u128::MAX,
        forall|k: int| 0 <= k < users@.len() ==> match (#[trigger] users@[k]).2 {
            None => true,
            Some(old) => merge_all(shared(rewards@, users@[k].1 as int, total_shares as int), old@) is Some,
        },
    ensures
        r@.len() == users@.len(),
        forall|k: int| 0 <= k < users@.len() ==> (#[trigger] r@[k]).0 == users@[k].0
            && r@[k].1@ == distributed_to(rewards@, total_shares as int, users@[k]),
{
    let ghost us = users@;
    let n = users.len();
    let mut rest = users;
    let mut out: Vec<(String, Rewards)> = Vec::new();
    let mut k: usize = 0;
    while k < n
        invariant
            n == us.len(),
            k <= n,
            total_shares != 0,
            rest@ == us.skip(k as int),
            forall|j: int, i: int| 0 <= j < us.len() && 0 <= i < rewards@.len() ==>
                #[trigger] rewards@[i].amount * (#[trigger] us[j]).1 / (total_shares as int) <= u128::MAX,
            forall|j: int| 0 <= j < us.len() ==> match (#[trigger] us[j]).2 {
                None => true,
                Some(old) => merge_all(shared(rewards@, us[j].1 as int, total_shares as int), old@) is Some,
            },
            out@.len() == k,
            forall|j: int| 0 <= j < k ==> (#[trigger] out@[j]).0 == us[j].0
                && out@[j].1@ == distributed_to(rewards@, total_shares as int, us[j]),
        decreases n - k,
    {
        proof {
            assert(us.skip(k as int).drop_first() =~= us.skip(k + 1));
            assert(us.skip(k as int)[0] == us[k as int]);
        }
        let (address, user_shares, old) = rest.remove(0);
        proof {
            assert forall|i: int| 0 <= i < rewards@.len() implies #[trigger] rewards@[i].amount * user_shares / (total_shares as int) <= u128::MAX by {
                assert(rewards@[i].amount * us[k as int].1 / (total_shares as int) <= u128::MAX);
            }
        }
        let part = rewards.percentage(total_shares, user_shares);
        let merged = match old {
            None => part,
            Some(o) => match part.add(o) {
                Ok(m) => m,
                Err(_) => Rewards::new(),
            },
        };
        out.push((address, merged));
        k = k + 1;
    }
    out
}

/// The sum of the first `k` users' shares.
pub open spec fn shares_sum(shares: Seq<u128>, k: int) -> int
    decreases k,
{
    if k <= 0 { 0 } else { shares_sum(shares, k - 1) + shares[k - 1] }
}

/// The sum of the first `k` users' parts of an amount.
pub open spec fn parts_sum(amount: int, shares: Seq<u128>, total: int, k: int) -> int
    decreases k,
{
    if k <= 0 { 0 } else { parts_sum(amount, shares, total, k - 1) + amount * shares[k - 1] / total }
}

proof fn lemma_parts_sum(amount: int, shares: Seq<u128>, total: int, k: int)
    requires
        amount >= 0,
        total > 0,
        0 <= k <= shares.len(),
    ensures
        parts_sum(amount, shares, total, k) * total <= amount * shares_sum(shares, k),
    decreases k,
{
    if k > 0 {
        lemma_parts_sum(amount, shares, total, k - 1);
        let (u, ps, ss) = (shares[k - 1] as int, parts_sum(amount, shares, total, k - 1), shares_sum(shares, k - 1));
        assert((amount * u / total) * total <= amount * u) by (nonlinear_arith) requires amount >= 0, u >= 0, total > 0;
        assert((ps + amount * u / total) * total <= amount * (ss + u)) by (nonlinear_arith)
            requires ps * total <= amount * ss, (amount * u / total) * total <= amount * u;
    }
}

/// Distributing never hands out more than was collected: when the users'
/// shares add up to at most the total, their parts of each collected coin,
/// each rounded down, add up to at most that coin's amount.
pub proof fn law_distribution_within_rewards(rewards: Seq<Coin>, total_shares: int, shares: Seq<u128>)
    requires
        total_shares > 0,
        shares_sum(shares, shares.len() as int) <= total_shares,
    ensures
        forall|i: int| 0 <= i < rewards.len() ==>
            parts_sum((#[trigger] rewards[i]).amount as int, shares, total_shares, shares.len() as int) <= rewards[i].amount,
{
    assert forall|i: int| 0 <= i < rewards.len() implies
        parts_sum((#[trigger] rewards[i]).amount as int, shares, total_shares, shares.len() as int) <= rewards[i].amount by {
        let a = rewards[i].amount as int;
        lemma_parts_sum(a, shares, total_shares, shares.len() as int);
        let (p, ss) = (parts_sum(a, shares, total_shares, shares.len() as int), shares_sum(shares, shares.len() as int));
        assert(p <= a) by (nonlinear_arith) requires p * total_shares <= a * ss, ss <= total_shares, total_shares > 0, a >= 0;
    }
}

/// The treasury's share of collected rewards: the collected coins are
/// merged, the performance fee's part of each (rounded down) is taken out,
/// and the positive parts, sorted by denomination, are sent to the treasury;
/// nothing is sent when every part is zero. A part above its coin is an
/// overflow error. CosmWasm panics where a merged amount or a part leaves
/// the 128-bit range, which `requires` excludes.
pub fn strategist_fee_payment(collected: Vec<Coin>, performance_fee: Decimal, treasury: String)
    -> (r: Result<Option<BankSend>, ContractError>)
    requires
        merge_all(Seq::empty(), collected@) is Some,
        forall|i: int| 0 <= i < merge_all(Seq::empty(), collected@)->Some_0.len() ==>
            #[trigger] merge_all(Seq::empty(), collected@)->Some_0[i].amount * performance_fee@ / dec_frac() <= u128::MAX,
    ensures
        ({
            let merged = merge_all(Seq::empty(), collected@)->Some_0;
            let taken = if performance_fee@ == 0 { Seq::<Coin>::empty() } else { scaled(merged, performance_fee@) };
            if !sub_all(merged, taken).1 {
                r == Err::<Option<BankSend>, ContractError>(ContractError::OverflowError(OverflowError { operation: OverflowOperation::Sub }))
            } else if positive_coins(taken).len() == 0 {
                r == Ok::<Option<BankSend>, ContractError>(None)
            } else {
                r matches Ok(Some(m)) && m.to_address@ == treasury@
                    && m.amount@ == positive_coins(sorted_by_denom(positive_coins(taken)))
            }
        }),
{
    let mut list = CoinList::new();
    let ghost c = collected@;
    let _ = list.merge(collected);
    assert(list@ == merge_all(Seq::empty(), c)->Some_0);
    assert(forall|i: int| 0 <= i < list@.len() ==> #[trigger] list@[i].amount * performance_fee@ / dec_frac() <= u128::MAX);
    let fee = match list.sub_ratio(performance_fee) {
        Ok(l) => l,
        Err(e) => { return Err(e); },
    };
    if fee.is_empty() {
        Ok(None)
    } else {
        Ok(Some(BankSend { to_address: treasury, amount: fee.coins() }))
    }
}

} // verus!
