use vstd::prelude::*;
use crate::cl_vault::error::{ContractError, StdError};
use crate::coin::{copy_coins, distinct_denoms, filter_positive, find_first, first_with, is_first_with, lemma_first_with_distinct, positive_coins, sort_tokens, sorted_by_denom, Coin};
use crate::math::decimal::{dec_frac, Decimal};
use crate::math::uint::{u128_multiply_ratio, OverflowError, OverflowOperation};
use crate::text::{decimal_text, u128_text};

verus! {

/// A list of coins, such as collected rewards.
#[derive(Debug, Clone, PartialEq, Eq)]
pub struct CoinList(pub Vec<Coin>);

/// A coin as the pool module reports it, with its amount in decimal digits.
#[derive(Debug, Clone, PartialEq, Eq)]
pub struct OsmoCoin {
    pub denom: String,
    pub amount: String,
}

/// A key and a value reported with a response.
#[derive(Debug, Clone, PartialEq, Eq)]
pub struct Attribute {
    pub key: String,
    pub value: String,
}

/// A payment of coins to an address.
#[derive(Debug, Clone, PartialEq, Eq)]
pub struct BankSend {
    pub to_address: String,
    pub amount: Vec<Coin>,
}

impl View for CoinList {
    type V = Seq<Coin>;

    open spec fn view(&self) -> Seq<Coin> {
        self.0@
    }
}

/// A coin as the pool module takes it, its amount in decimal digits.
pub open spec fn osmo_coin_of(c: Coin) -> (Seq<char>, Seq<char>) {
    (c.denom@, decimal_text(c.amount as nat))
}

/// A coin as the pool module takes it.
pub fn to_osmo_coin(c: &Coin) -> (r: OsmoCoin)
    ensures
        (r.denom@, r.amount@) == osmo_coin_of(*c),
{
    OsmoCoin { denom: c.denom.clone(), amount: u128_text(c.amount) }
}

/// `s` with the amount of its coin at `i` replaced.
pub open spec fn with_amount(s: Seq<Coin>, i: int, amount: u128) -> Seq<Coin> {
    s.update(i, Coin { denom: s[i].denom, amount })
}

/// Adding one coin: to the first coin of its denomination, or at the end;
/// `None` where the sum leaves the 128-bit range.
pub open spec fn merge_one(s: Seq<Coin>, c: Coin) -> Option<Seq<Coin>> {
    match first_with(s, c.denom@) {
        Some(i) => if s[i].amount + c.amount <= u128::MAX {
            Some(with_amount(s, i, (s[i].amount + c.amount) as u128))
        } else {
            None
        },
        None => Some(s.push(c)),
    }
}

/// Adding the coins one after the other.
pub open spec fn merge_all(s: Seq<Coin>, coins: Seq<Coin>) -> Option<Seq<Coin>>
    decreases coins.len(),
{
    if coins.len() == 0 {
        Some(s)
    } else {
        match merge_one(s, coins[0]) {
            Some(t) => merge_all(t, coins.drop_first()),
            None => None,
        }
    }
}

/// Taking one coin away from the first coin of its denomination; a coin of a
/// denomination that `s` lacks changes nothing; `None` where the amount is too small.
pub open spec fn sub_one(s: Seq<Coin>, c: Coin) -> Option<Seq<Coin>> {
    match first_with(s, c.denom@) {
        Some(i) => if s[i].amount >= c.amount {
            Some(with_amount(s, i, (s[i].amount - c.amount) as u128))
        } else {
            None
        },
        None => Some(s),
    }
}

/// Taking the coins away one after the other: the list reached, and whether
/// every step succeeded (the list stays as it was at the first failing step).
pub open spec fn sub_all(s: Seq<Coin>, subs: Seq<Coin>) -> (Seq<Coin>, bool)
    decreases subs.len(),
{
    if subs.len() == 0 {
        (s, true)
    } else {
        match sub_one(s, subs[0]) {
            Some(t) => sub_all(t, subs.drop_first()),
            None => (s, false),
        }
    }
}

/// Each amount scaled by the decimal `ratio` (atomics over 10^18), rounded down.
pub open spec fn scaled(s: Seq<Coin>, ratio: int) -> Seq<Coin> {
    Seq::new(s.len(), |i: int| Coin { denom: s[i].denom, amount: (s[i].amount * ratio / dec_frac()) as u128 })
}

/// The amount of the first coin of denomination `d`, or zero.
pub open spec fn amount_of(s: Seq<Coin>, d: Seq<char>) -> u128 {
    match first_with(s, d) {
        Some(i) => s[i].amount,
        None => 0,
    }
}

/// The value of a string of ASCII digits, `None` where a byte is not a digit
/// or the value leaves the 128-bit range.
pub open spec fn digits_value(b: Seq<u8>) -> Option<u128>
    decreases b.len(),
{
    if b.len() == 0 {
        Some(0)
    } else {
        match digits_value(b.drop_last()) {
            Some(v) => if 48 <= b.last() <= 57 && v * 10 + (b.last() - 48) <= u128::MAX {
                Some((v * 10 + (b.last() - 48)) as u128)
            } else {
                None
            },
            None => None,
        }
    }
}

/// How Rust reads a `u128` from a string: an optional `+`, then one or more
/// decimal digits whose value fits.
pub open spec fn parse_u128_spec(b: Seq<u8>) -> Option<u128> {
    let d = if b.len() > 0 && b[0] == 43 { b.drop_first() } else { b };
    if d.len() == 0 { None } else { digits_value(d) }
}

/// Reads a decimal `u128` amount.
pub fn parse_u128(s: &String) -> (r: Option<u128>)
    ensures
        r == parse_u128_spec(vstd::utf8::encode_utf8(s@)),
{
    let st = s.as_str();
    let b = st.as_bytes();
    let ghost bs = b@;
    assert(bs == vstd::utf8::encode_utf8(s@));
    let start: usize = if b.len() > 0 && b[0] == 43 { 1 } else { 0 };
    let ghost d = if bs.len() > 0 && bs[0] == 43 { bs.drop_first() } else { bs };
    assert(d =~= bs.subrange(start as int, bs.len() as int));
    if start >= b.len() {
        return None;
    }
    let mut v: u128 = 0;
    let mut i: usize = start;
    while i < b.len()
        invariant
            bs == b@,
            bs == vstd::utf8::encode_utf8(s@),
            start == (if bs.len() > 0 && bs[0] == 43 { 1int } else { 0int }),
            start <= i <= b@.len(),
            d =~= bs.subrange(start as int, bs.len() as int),
            digits_value(bs.subrange(start as int, i as int)) == Some(v),
        decreases b@.len() - i,
    {
        let c = b[i];
        proof {
            assert(bs.subrange(start as int, i + 1).drop_last() =~= bs.subrange(start as int, i as int));
        }
        if c < 48 || c > 57 {
            proof {
                let p = bs.subrange(start as int, i + 1);
                assert(p.last() == c);
                lemma_parse_fails(bs, start as int, i + 1);
            }
            return None;
        }
        match v.checked_mul(10) {
            Some(m) => match m.checked_add((c - 48) as u128) {
                Some(n) => { v = n; },
                None => {
                    proof {
                        let p = bs.subrange(start as int, i + 1);
                        assert(p.last() == c);
                        lemma_parse_fails(bs, start as int, i + 1);
                    }
                    return None;
                },
            },
            None => {
                proof { lemma_parse_fails(bs, start as int, i + 1); }
                return None;
            },
        }
        i = i + 1;
    }
    assert(bs.subrange(start as int, b@.len() as int) =~= d);
    Some(v)
}

/// Once the digits up to `end` fail to read, the whole amount does.
proof fn lemma_parse_fails(bs: Seq<u8>, start: int, end: int)
    requires
        start == (if bs.len() > 0 && bs[0] == 43 { 1int } else { 0int }),
        start < end <= bs.len(),
        digits_value(bs.subrange(start, end)) is None,
    ensures
        parse_u128_spec(bs) is None,
{
    let d = if bs.len() > 0 && bs[0] == 43 { bs.drop_first() } else { bs };
    assert(d =~= bs.subrange(start, bs.len() as int));
    assert(bs.subrange(start, end) =~= d.subrange(0, end - start));
    lemma_digits_none_extends(bs.subrange(start, end), d);
}

/// Once a prefix of the digits fails to read, the whole string does.
proof fn lemma_digits_none_extends(p: Seq<u8>, b: Seq<u8>)
    requires
        p.len() <= b.len(),
        p =~= b.subrange(0, p.len() as int),
        digits_value(p) is None,
    ensures
        digits_value(b) is None,
    decreases b.len() - p.len(),
{
    if p.len() < b.len() {
        assert(b.subrange(0, p.len() as int + 1).drop_last() =~= p);
        lemma_digits_none_extends(b.subrange(0, p.len() as int + 1), b);
    } else {
        assert(p =~= b);
    }
}

impl CoinList {
    /// An empty list.
    pub fn new() -> (r: CoinList)
        ensures
            r@ == Seq::<Coin>::empty(),
    {
        CoinList(Vec::new())
    }

    /// The list holding exactly these coins.
    pub fn from_coins(coins: Vec<Coin>) -> (r: CoinList)
        ensures
            r@ == coins@,
    {
        CoinList(coins)
    }

    /// Whether the list holds no coin.
    pub fn is_empty(&self) -> (r: bool)
        ensures
            r == (self@.len() == 0),
    {
        self.0.len() == 0
    }

    /// Each amount multiplied by `ratio`, rounded down; a zero ratio gives
    /// the empty list.
    pub fn mul_ratio(&self, ratio: Decimal) -> (r: CoinList)
        requires
            forall|i: int| 0 <= i < self@.len() ==> #[trigger] self@[i].amount * ratio@ / dec_frac() <= u128::MAX,
        ensures
            r@ == (if ratio@ == 0 { Seq::<Coin>::empty() } else { scaled(self@, ratio@) }),
    {
        if ratio.is_zero() {
            return CoinList::new();
        }
        let mut out: Vec<Coin> = Vec::new();
        let mut i: usize = 0;
        while i < self.0.len()
            invariant
                i <= self@.len(),
                ratio@ != 0,
                forall|j: int| 0 <= j < self@.len() ==> #[trigger] self@[j].amount * ratio@ / dec_frac() <= u128::MAX,
                out@ =~= scaled(self@, ratio@).subrange(0, i as int),
            decreases self@.len() - i,
        {
            let c = &self.0[i];
            assert(c.amount * ratio@ / dec_frac() <= u128::MAX);
            let amount = u128_multiply_ratio(c.amount, ratio.numerator(), ratio.denominator());
            out.push(Coin { denom: c.denom.clone(), amount });
            i = i + 1;
        }
        CoinList(out)
    }

    /// Adds each coin to the first coin of its denomination, or appends it;
    /// it always succeeds where no sum leaves the 128-bit range.
    pub fn merge(&mut self, coins: Vec<Coin>) -> (r: Result<(), ContractError>)
        requires
            merge_all(old(self)@, coins@) is Some,
        ensures
            r is Ok,
            Some(final(self)@) == merge_all(old(self)@, coins@),
    {
        let n = coins.len();
        let mut rest = coins;
        let ghost input = rest@;
        let mut i: usize = 0;
        while i < n
            invariant
                n == input.len(),
                i <= n,
                rest@ =~= input.subrange(i as int, n as int),
                merge_all(self@, rest@) == merge_all(old(self)@, input),
                merge_all(old(self)@, input) is Some,
            decreases n - i,
        {
            let c = rest.remove(0);
            proof {
                assert(input.subrange(i as int, n as int).drop_first() =~= input.subrange(i + 1, n as int));
            }
            match find_first(&self.0, &c.denom) {
                Some(j) => {
                    let cur = &self.0[j];
                    let updated = Coin { denom: cur.denom.clone(), amount: c.amount + cur.amount };
                    self.0.set(j, updated);
                },
                None => {
                    self.0.push(c);
                },
            }
            i = i + 1;
        }
        Ok(())
    }

    /// The list with `coins` merged in as `merge` does, or `None` where a sum
    /// leaves the 128-bit range (where `merge` cannot be called).
    pub fn checked_merge(&self, coins: &Vec<Coin>) -> (r: Option<CoinList>)
        ensures
            match merge_all(self@, coins@) {
                Some(v) => r matches Some(l) && l@ == v,
                None => r is None,
            },
    {
        let mut acc = CoinList(copy_coins(&self.0));
        let n = coins.len();
        let mut i: usize = 0;
        assert(coins@.subrange(0, n as int) =~= coins@);
        while i < n
            invariant
                n == coins@.len(),
                i <= n,
                merge_all(acc@, coins@.subrange(i as int, n as int)) == merge_all(self@, coins@),
            decreases n - i,
        {
            let c = &coins[i];
            proof {
                assert(coins@.subrange(i as int, n as int).drop_first() =~= coins@.subrange(i + 1, n as int));
                assert(coins@.subrange(i as int, n as int)[0] == *c);
            }
            match find_first(&acc.0, &c.denom) {
                Some(j) => {
                    let cur = acc.0[j].amount;
                    if cur > u128::MAX - c.amount {
                        return None;
                    }
                    let updated = Coin { denom: acc.0[j].denom.clone(), amount: cur + c.amount };
                    acc.0.set(j, updated);
                },
                None => {
                    acc.0.push(c.duplicate());
                },
            }
            i = i + 1;
        }
        assert(coins@.subrange(n as int, n as int).len() == 0);
        Some(acc)
    }

    /// Adds the positive coins of `rewards`, sorted by denomination.
    pub fn add(&mut self, rewards: CoinList) -> (r: Result<(), ContractError>)
        requires
            merge_all(old(self)@, positive_coins(sorted_by_denom(rewards@))) is Some,
        ensures
            r is Ok,
            Some(final(self)@) == merge_all(old(self)@, positive_coins(sorted_by_denom(rewards@))),
    {
        let coins = rewards.coins();
        self.merge(coins)
    }

    /// The coins with a non-zero amount, sorted by denomination.
    pub fn coins(&self) -> (r: Vec<Coin>)
        ensures
            r@ == positive_coins(sorted_by_denom(self@)),
    {
        filter_positive(sort_tokens(copy_coins(&self.0)))
    }

    /// The coins of `coins`, as the pool module takes them.
    pub fn osmo_coin_from_coin_list(&self) -> (r: Vec<OsmoCoin>)
        ensures
            r@.len() == positive_coins(sorted_by_denom(self@)).len(),
            forall|i: int| 0 <= i < r@.len() ==>
                ((#[trigger] r@[i]).denom@, r@[i].amount@) == osmo_coin_of(positive_coins(sorted_by_denom(self@))[i]),
    {
        let coins = self.coins();
        let mut out: Vec<OsmoCoin> = Vec::new();
        let mut i: usize = 0;
        while i < coins.len()
            invariant
                i <= coins@.len(),
                out@.len() == i,
                forall|j: int| 0 <= j < i ==> ((#[trigger] out@[j]).denom@, out@[j].amount@) == osmo_coin_of(coins@[j]),
            decreases coins@.len() - i,
        {
            out.push(to_osmo_coin(&coins[i]));
            i = i + 1;
        }
        out
    }

    /// Each coin as an attribute: its denomination as the key, its amount in
    /// decimal digits as the value.
    pub fn into_attributes(self) -> (r: Vec<Attribute>)
        ensures
            r@.len() == self@.len(),
            forall|i: int| 0 <= i < r@.len() ==>
                ((#[trigger] r@[i]).key@, r@[i].value@) == osmo_coin_of(self@[i]),
    {
        let mut out: Vec<Attribute> = Vec::new();
        let mut i: usize = 0;
        while i < self.0.len()
            invariant
                i <= self@.len(),
                out@.len() == i,
                forall|j: int| 0 <= j < i ==> ((#[trigger] out@[j]).key@, out@[j].value@) == osmo_coin_of(self@[j]),
            decreases self@.len() - i,
        {
            let c = to_osmo_coin(&self.0[i]);
            out.push(Attribute { key: c.denom, value: c.amount });
            i = i + 1;
        }
        out
    }

    /// Adds the coins of `rewards` (those of `coins`) as `merge` does.
    pub fn update_rewards_coin_list(&mut self, rewards: CoinList) -> (r: Result<(), ContractError>)
        requires
            merge_all(old(self)@, positive_coins(sorted_by_denom(rewards@))) is Some,
        ensures
            r is Ok,
            Some(final(self)@) == merge_all(old(self)@, positive_coins(sorted_by_denom(rewards@))),
    {
        let coins = rewards.coins();
        self.merge(coins)
    }

    /// Subtracts each coin of `to_sub` from the first coin of its denomination
    /// in order, ignoring denominations that the list lacks; at the first coin
    /// larger than what the list holds it stops with an overflow error, the
    /// earlier subtractions kept.
    pub fn sub(&mut self, to_sub: &CoinList) -> (r: Result<(), ContractError>)
        ensures
            final(self)@ == sub_all(old(self)@, to_sub@).0,
            r is Ok <==> sub_all(old(self)@, to_sub@).1,
            r is Err ==> r == Err::<(), ContractError>(ContractError::OverflowError(OverflowError { operation: OverflowOperation::Sub })),
    {
        let n = to_sub.0.len();
        let mut i: usize = 0;
        assert(to_sub@.subrange(0, n as int) =~= to_sub@);
        while i < n
            invariant
                n == to_sub@.len(),
                i <= n,
                sub_all(self@, to_sub@.subrange(i as int, n as int)) == sub_all(old(self)@, to_sub@),
            decreases n - i,
        {
            let c = &to_sub.0[i];
            proof {
                assert(to_sub@.subrange(i as int, n as int).drop_first() =~= to_sub@.subrange(i + 1, n as int));
                assert(to_sub@.subrange(i as int, n as int)[0] == to_sub@[i as int]);
            }
            match find_first(&self.0, &c.denom) {
                Some(j) => {
                    let cur = &self.0[j];
                    if cur.amount < c.amount {
                        return Err(ContractError::OverflowError(OverflowError { operation: OverflowOperation::Sub }));
                    }
                    let updated = Coin { denom: cur.denom.clone(), amount: cur.amount - c.amount };
                    self.0.set(j, updated);
                },
                None => {},
            }
            i = i + 1;
        }
        assert(to_sub@.subrange(n as int, n as int) =~= Seq::<Coin>::empty());
        Ok(())
    }

    /// Takes `ratio` of every coin out of the list and returns what was taken,
    /// without the coins that came to zero.
    pub fn sub_ratio(&mut self, ratio: Decimal) -> (r: Result<CoinList, ContractError>)
        requires
            forall|i: int| 0 <= i < old(self)@.len() ==> #[trigger] old(self)@[i].amount * ratio@ / dec_frac() <= u128::MAX,
        ensures
            ({
                let taken = if ratio@ == 0 { Seq::<Coin>::empty() } else { scaled(old(self)@, ratio@) };
                &&& final(self)@ == sub_all(old(self)@, taken).0
                &&& match r {
                    Ok(l) => sub_all(old(self)@, taken).1 && l@ == positive_coins(taken),
                    Err(e) => !sub_all(old(self)@, taken).1
                        && e == ContractError::OverflowError(OverflowError { operation: OverflowOperation::Sub }),
                }
            }),
    {
        let to_sub = self.mul_ratio(ratio);
        match self.sub(&to_sub) {
            Ok(()) => {},
            Err(e) => { return Err(e); },
        }
        Ok(CoinList(filter_positive(to_sub.0)))
    }

    /// The first coin of denomination `denom`, or a zero coin of it.
    pub fn find_coin(&self, denom: String) -> (r: Coin)
        ensures
            r.denom@ == denom@,
            r.amount == amount_of(self@, denom@),
    {
        match find_first(&self.0, &denom) {
            Some(i) => self.0[i].duplicate(),
            None => Coin { denom, amount: 0 },
        }
    }

    /// A payment of the non-zero coins to `to_address`, or `None` when
    /// nothing would be paid.
    pub fn to_bank_send(self, to_address: String) -> (r: Option<BankSend>)
        ensures
            match r {
                Some(m) => m.to_address@ == to_address@ && m.amount@ == positive_coins(self@)
                    && positive_coins(self@).len() > 0,
                None => positive_coins(self@).len() == 0,
            },
    {
        let amount = filter_positive(self.0);
        if amount.len() == 0 {
            None
        } else {
            Some(BankSend { to_address, amount })
        }
    }

    /// Pays out the whole list to `recipient`: the positive coins, sorted by
    /// denomination; the list is left empty.
    pub fn claim(&mut self, recipient: &str) -> (r: Result<BankSend, ContractError>)
        ensures
            final(self)@ == Seq::<Coin>::empty(),
            match r {
                Ok(m) => m.to_address@ == recipient@ && m.amount@ == positive_coins(sorted_by_denom(old(self)@)),
                Err(_) => false,
            },
    {
        let rewards = self.coins();
        self.0.clear();
        Ok(BankSend { to_address: recipient.to_string(), amount: rewards })
    }

    /// Reads the reported coins and adds them; a malformed amount is an
    /// error, and then the list is unchanged.
    pub fn update_rewards(&mut self, rewards: &Vec<OsmoCoin>) -> (r: Result<(), ContractError>)
        requires
            forall|v: Seq<Coin>| parsed_coins(rewards@) == Some(v) ==> merge_all(old(self)@, v) is Some,
        ensures
            match parsed_coins(rewards@) {
                Some(v) => r is Ok && Some(final(self)@) == merge_all(old(self)@, v),
                None => final(self)@ == old(self)@ && unparsed_error(rewards@, r),
            },
    {
        let mut parsed: Vec<Coin> = Vec::new();
        let mut i: usize = 0;
        while i < rewards.len()
            invariant
                i <= rewards@.len(),
                parsed_coins(rewards@.subrange(0, i as int)) == Some(parsed@),
                forall|j: int| 0 <= j < i ==> (#[trigger] parse_u128_spec(vstd::utf8::encode_utf8(rewards@[j].amount@))) is Some,
            decreases rewards@.len() - i,
        {
            let c = &rewards[i];
            proof {
                assert(rewards@.subrange(0, i + 1).drop_last() =~= rewards@.subrange(0, i as int));
            }
            match parse_u128(&c.amount) {
                Some(a) => {
                    parsed.push(Coin { denom: c.denom.clone(), amount: a });
                },
                None => {
                    proof {
                        lemma_parsed_none_extends(rewards@.subrange(0, i + 1), rewards@);
                        assert(is_first_unparsed(rewards@, i as int));
                    }
                    return Err(ContractError::Std(StdError::ParseErr {
                        target_type: "u128".to_string(),
                        msg: c.amount.clone(),
                    }));
                },
            }
            i = i + 1;
        }
        assert(rewards@.subrange(0, rewards@.len() as int) =~= rewards@);
        self.merge(parsed)
    }
}

/// `k` is the first reported coin whose amount does not read as a `u128`.
pub open spec fn is_first_unparsed(s: Seq<OsmoCoin>, k: int) -> bool {
    &&& 0 <= k < s.len()
    &&& parse_u128_spec(vstd::utf8::encode_utf8(s[k].amount@)) is None
    &&& forall|j: int| 0 <= j < k ==> (#[trigger] parse_u128_spec(vstd::utf8::encode_utf8(s[j].amount@))) is Some
}

/// `r` is the error for the first malformed amount among `s`.
pub open spec fn unparsed_error(s: Seq<OsmoCoin>, r: Result<(), ContractError>) -> bool {
    exists|k: int| is_first_unparsed(s, k)
        && (r matches Err(ContractError::Std(StdError::ParseErr { target_type, msg }))
            && target_type@ == "u128"@ && msg == s[k].amount)
}

/// The reported coins read as coins, `None` where an amount is malformed.
pub open spec fn parsed_coins(s: Seq<OsmoCoin>) -> Option<Seq<Coin>>
    decreases s.len(),
{
    if s.len() == 0 {
        Some(Seq::empty())
    } else {
        match (parsed_coins(s.drop_last()), parse_u128_spec(vstd::utf8::encode_utf8(s.last().amount@))) {
            (Some(v), Some(a)) => Some(v.push(Coin { denom: s.last().denom, amount: a })),
            _ => None,
        }
    }
}

proof fn lemma_parsed_none_extends(p: Seq<OsmoCoin>, s: Seq<OsmoCoin>)
    requires
        p.len() <= s.len(),
        p =~= s.subrange(0, p.len() as int),
        parsed_coins(p) is None,
    ensures
        parsed_coins(s) is None,
    decreases s.len() - p.len(),
{
    if p.len() < s.len() {
        assert(s.subrange(0, p.len() as int + 1).drop_last() =~= p);
        lemma_parsed_none_extends(s.subrange(0, p.len() as int + 1), s);
    } else {
        assert(p =~= s);
    }
}

/// The sum of the amounts of the coins of denomination `d`.
pub open spec fn total_of(coins: Seq<Coin>, d: Seq<char>) -> int
    decreases coins.len(),
{
    if coins.len() == 0 {
        0
    } else {
        (if coins[0].denom@ == d { coins[0].amount as int } else { 0 }) + total_of(coins.drop_first(), d)
    }
}

/// Adding one coin to a list without repeated denominations keeps it so, and
/// raises the amount of the coin's denomination by the coin's amount.
proof fn lemma_merge_one(s: Seq<Coin>, c: Coin)
    requires
        distinct_denoms(s),
        merge_one(s, c) is Some,
    ensures
        distinct_denoms(merge_one(s, c)->Some_0),
        forall|d: Seq<char>| #[trigger] amount_of(merge_one(s, c)->Some_0, d) as int
            == amount_of(s, d) + (if c.denom@ == d { c.amount as int } else { 0 }),
{
    let t = merge_one(s, c)->Some_0;
    lemma_first_with_distinct(s, c.denom@);
    match first_with(s, c.denom@) {
        Some(i) => {
            assert(0 <= i < s.len() && s[i].denom@ == c.denom@) by {
                assert(is_first_with(s, c.denom@, choose|k: int| is_first_with(s, c.denom@, k)));
            }
            assert forall|a: int, b: int| 0 <= a < b < t.len() implies (#[trigger] t[a]).denom@ != (#[trigger] t[b]).denom@ by {
                assert(s[a].denom@ != s[b].denom@);
            }
            assert forall|d: Seq<char>| #[trigger] amount_of(t, d) as int
                == amount_of(s, d) + (if c.denom@ == d { c.amount as int } else { 0 }) by {
                lemma_first_with_distinct(s, d);
                lemma_first_with_distinct(t, d);
                if d == c.denom@ {
                    assert(t[i].denom@ == d);
                } else if exists|k: int| 0 <= k < s.len() && s[k].denom@ == d {
                    let k = choose|k: int| 0 <= k < s.len() && s[k].denom@ == d;
                    assert(t[k].denom@ == d);
                } else {
                    assert forall|k: int| 0 <= k < t.len() implies (#[trigger] t[k]).denom@ != d by {
                        assert(s[k].denom@ != d);
                    }
                }
            }
        },
        None => {
            assert forall|k: int| 0 <= k < s.len() implies (#[trigger] s[k]).denom@ != c.denom@ by {
                if s[k].denom@ == c.denom@ {
                    assert(first_with(s, c.denom@) == Some(k));
                }
            }
            assert forall|a: int, b: int| 0 <= a < b < t.len() implies (#[trigger] t[a]).denom@ != (#[trigger] t[b]).denom@ by {
                if b == s.len() {
                    assert(s[a].denom@ != c.denom@);
                } else {
                    assert(s[a].denom@ != s[b].denom@);
                }
            }
            assert forall|d: Seq<char>| #[trigger] amount_of(t, d) as int
                == amount_of(s, d) + (if c.denom@ == d { c.amount as int } else { 0 }) by {
                lemma_first_with_distinct(s, d);
                lemma_first_with_distinct(t, d);
                if d == c.denom@ {
                    assert(t[s.len() as int].denom@ == d);
                } else if exists|k: int| 0 <= k < s.len() && s[k].denom@ == d {
                    let k = choose|k: int| 0 <= k < s.len() && s[k].denom@ == d;
                    assert(t[k].denom@ == d);
                } else {
                    assert forall|k: int| 0 <= k < t.len() implies (#[trigger] t[k]).denom@ != d by {
                        if k < s.len() {
                            assert(s[k].denom@ != d);
                        }
                    }
                }
            }
        },
    }
}

/// Merging coins into a list without repeated denominations keeps it so,
/// and each denomination's amount grows by the sum of the merged coins of
/// that denomination: the merge adds the values already there and appends
/// the others.
pub proof fn law_merge_adds_amounts(s: Seq<Coin>, coins: Seq<Coin>)
    requires
        distinct_denoms(s),
        merge_all(s, coins) is Some,
    ensures
        distinct_denoms(merge_all(s, coins)->Some_0),
        forall|d: Seq<char>| #[trigger] amount_of(merge_all(s, coins)->Some_0, d) as int == amount_of(s, d) + total_of(coins, d),
    decreases coins.len(),
{
    if coins.len() > 0 {
        lemma_merge_one(s, coins[0]);
        let t = merge_one(s, coins[0])->Some_0;
        law_merge_adds_amounts(t, coins.drop_first());
        assert forall|d: Seq<char>| #[trigger] amount_of(merge_all(s, coins)->Some_0, d) as int
            == amount_of(s, d) + total_of(coins, d) by {
            assert(amount_of(t, d) as int == amount_of(s, d) + (if coins[0].denom@ == d { coins[0].amount as int } else { 0 }));
        }
    }
}

/// The list after the first `k` coins gave up their scaled part.
pub open spec fn after_sub(s: Seq<Coin>, ratio: int, k: int) -> Seq<Coin> {
    Seq::new(s.len(), |j: int| Coin {
        denom: s[j].denom,
        amount: if j < k { (s[j].amount - scaled(s, ratio)[j].amount) as u128 } else { s[j].amount },
    })
}

proof fn lemma_after_sub_step(s: Seq<Coin>, ratio: int, k: int)
    requires
        distinct_denoms(s),
        0 <= ratio <= dec_frac(),
        0 <= k <= s.len(),
    ensures
        sub_all(after_sub(s, ratio, k), scaled(s, ratio).subrange(k, s.len() as int)) == (after_sub(s, ratio, s.len() as int), true),
    decreases s.len() - k,
{
    let u = after_sub(s, ratio, k);
    let subs = scaled(s, ratio).subrange(k, s.len() as int);
    if k == s.len() {
        assert(u =~= after_sub(s, ratio, s.len() as int));
        assert(subs.len() == 0);
    } else {
        assert(distinct_denoms(u)) by {
            assert forall|a: int, b: int| 0 <= a < b < u.len() implies (#[trigger] u[a]).denom@ != (#[trigger] u[b]).denom@ by {
                assert(s[a].denom@ != s[b].denom@);
            }
        }
        lemma_first_with_distinct(u, s[k].denom@);
        assert(u[k].denom@ == s[k].denom@);
        assert(first_with(u, subs[0].denom@) == Some(k));
        assert(s[k].amount * ratio / dec_frac() <= s[k].amount) by (nonlinear_arith)
            requires 0 <= ratio <= dec_frac(), s[k].amount >= 0, dec_frac() > 0;
        assert(sub_one(u, subs[0]) == Some(after_sub(s, ratio, k + 1))) by {
            assert(with_amount(u, k, (u[k].amount - subs[0].amount) as u128) =~= after_sub(s, ratio, k + 1));
        }
        assert(subs.drop_first() =~= scaled(s, ratio).subrange(k + 1, s.len() as int));
        lemma_after_sub_step(s, ratio, k + 1);
    }
}

/// Taking a ratio of at most one out of a list without repeated
/// denominations always succeeds, and what is taken and what remains add up
/// to what was there, coin by coin.
pub proof fn law_sub_ratio_conserves(s: Seq<Coin>, ratio: int)
    requires
        distinct_denoms(s),
        0 <= ratio <= dec_frac(),
    ensures
        sub_all(s, scaled(s, ratio)).1,
        sub_all(s, scaled(s, ratio)).0.len() == s.len(),
        forall|i: int| 0 <= i < s.len() ==> {
            &&& (#[trigger] sub_all(s, scaled(s, ratio)).0[i]).denom == s[i].denom
            &&& sub_all(s, scaled(s, ratio)).0[i].amount + scaled(s, ratio)[i].amount == s[i].amount
        },
{
    lemma_after_sub_step(s, ratio, 0);
    assert(after_sub(s, ratio, 0) =~= s);
    assert(scaled(s, ratio).subrange(0, s.len() as int) =~= scaled(s, ratio));
    assert forall|i: int| 0 <= i < s.len() implies s[i].amount * ratio / dec_frac() <= s[i].amount by {
        assert(s[i].amount * ratio / dec_frac() <= s[i].amount) by (nonlinear_arith)
            requires 0 <= ratio <= dec_frac(), s[i].amount >= 0, dec_frac() > 0;
    }
}

} // verus!
