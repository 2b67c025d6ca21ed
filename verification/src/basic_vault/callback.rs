use vstd::prelude::*;
use crate::basic_vault::error::ContractError;
use crate::basic_vault::state::{InvestmentInfo, PrimitiveConfig};
use crate::math::decimal::Decimal;
use crate::coin::Coin;
use crate::cl_vault::coinlist::BankSend;
use crate::math::decimal::dec_frac;
use crate::math::uint::{pow2_128, CheckedFromRatioError, OverflowError, OverflowOperation};
use crate::text::{decimal_text, u128_text};

verus! {

/// A primitive's answer to a bond: the shares it issued.
#[derive(Debug, Clone, PartialEq, Eq)]
pub struct BondResponse {
    pub share_amount: u128,
    pub bond_id: String,
}

/// The state of a bond with one primitive.
#[derive(Debug, Clone, PartialEq, Eq)]
pub struct BondingStub {
    /// the address of the primitive
    pub address: String,
    /// the primitive's answer, once it came
    pub bond_response: Option<BondResponse>,
    /// the primitive's value when it answered
    pub primitive_value: Option<u128>,
    /// the amount sent with the bond
    pub amount: u128,
}

/// What a bond answer leads to: still waiting on primitives, or the shares
/// to mint once all have answered.
#[derive(Debug, Clone, PartialEq, Eq)]
pub enum OnBondOutcome {
    /// `pending` primitives have not answered yet
    Pending { stubs: Vec<BondingStub>, pending: u32 },
    /// every primitive answered: the bond leaves the user's pending bonds
    Minted { stubs: Vec<BondingStub>, pending_bond_ids: Vec<String>, shares_to_mint: u128 },
}

/// `a` is the address of one of the primitives.
pub open spec fn is_primitive(ps: Seq<PrimitiveConfig>, a: Seq<char>) -> bool {
    exists|i: int| 0 <= i < ps.len() && #[trigger] ps[i].address@ == a
}

/// A stub of the primitive at `a` already holds an answer.
pub open spec fn already_answered(stubs: Seq<BondingStub>, a: Seq<char>) -> bool {
    exists|i: int| 0 <= i < stubs.len() && #[trigger] stubs[i].address@ == a && stubs[i].bond_response is Some
}

/// The stubs with the answer recorded on every stub of the primitive at `a`.
pub open spec fn record_answer(stubs: Seq<BondingStub>, a: Seq<char>, resp: BondResponse) -> Seq<BondingStub> {
    Seq::new(stubs.len(), |i: int| if stubs[i].address@ == a {
        BondingStub {
            address: stubs[i].address,
            bond_response: Some(resp),
            primitive_value: stubs[i].primitive_value,
            amount: stubs[i].amount,
        }
    } else {
        stubs[i]
    })
}

/// The number of stubs still waiting on an answer.
pub open spec fn unanswered(stubs: Seq<BondingStub>) -> nat
    decreases stubs.len(),
{
    if stubs.len() == 0 {
        0
    } else {
        unanswered(stubs.drop_last()) + if stubs.last().bond_response is None { 1nat } else { 0nat }
    }
}

/// The shares answered by the first `n` stubs.
pub open spec fn answered_shares(stubs: Seq<BondingStub>, n: int) -> int
    decreases n,
{
    if n <= 0 {
        0
    } else {
        answered_shares(stubs, n - 1) + match stubs[n - 1].bond_response {
            Some(r) => r.share_amount as int,
            None => 0,
        }
    }
}

/// The sum of the primitives' weights.
pub open spec fn weights_total(ps: Seq<PrimitiveConfig>) -> int
    decreases ps.len(),
{
    if ps.len() == 0 { 0 } else { weights_total(ps.drop_last()) + ps.last().weight@ }
}

/// `i` is the first place of `id` in `ids`.
pub open spec fn is_first_id(ids: Seq<String>, id: Seq<char>, i: int) -> bool {
    &&& 0 <= i < ids.len()
    &&& ids[i]@ == id
    &&& forall|j: int| 0 <= j < i ==> ids[j]@ != id
}

/// `ids` without the first occurrence of `id`, if it occurs.
pub open spec fn without_first(ids: Seq<String>, id: Seq<char>) -> Option<Seq<String>> {
    if exists|i: int| is_first_id(ids, id, i) {
        Some(ids.remove(choose|i: int| is_first_id(ids, id, i)))
    } else {
        None
    }
}

proof fn lemma_unanswered_zero(stubs: Seq<BondingStub>)
    ensures
        unanswered(stubs) == 0 <==> forall|i: int| 0 <= i < stubs.len() ==> (#[trigger] stubs[i]).bond_response is Some,
    decreases stubs.len(),
{
    if stubs.len() > 0 {
        lemma_unanswered_zero(stubs.drop_last());
        assert forall|i: int| 0 <= i < stubs.len() - 1 implies stubs.drop_last()[i] == #[trigger] stubs[i] by {}
    }
}

proof fn lemma_unanswered_bound(stubs: Seq<BondingStub>)
    ensures
        unanswered(stubs) <= stubs.len(),
    decreases stubs.len(),
{
    if stubs.len() > 0 {
        lemma_unanswered_bound(stubs.drop_last());
    }
}

/// Removes the first occurrence of `id` from the user's pending bonds; an
/// id that is not there is an error, and no pending bonds at all give none.
#[verifier::loop_isolation(false)]
pub fn remove_pending_id(ids: Option<Vec<String>>, id: &String) -> (r: Result<Vec<String>, ContractError>)
    ensures
        match ids {
            None => r is Ok && r->Ok_0@.len() == 0,
            Some(v) => match without_first(v@, id@) {
                Some(w) => r is Ok && r->Ok_0@ == w,
                None => r == Err::<Vec<String>, ContractError>(ContractError::IncorrectCallbackId { expected: *id, ids: v }),
            },
        },
{
    match ids {
        None => Ok(Vec::new()),
        Some(v) => {
            let ghost orig = v@;
            let mut i: usize = 0;
            while i < v.len()
                invariant
                    i <= v@.len(),
                    forall|j: int| 0 <= j < i ==> v@[j]@ != id@,
                decreases v@.len() - i,
            {
                if v[i] == *id {
                    proof {
                        assert(is_first_id(v@, id@, i as int));
                        assert forall|k: int| is_first_id(v@, id@, k) implies k == i by {
                            if k > i {
                                assert(v@[i as int]@ == id@);
                            }
                        }
                    }
                    let mut w = v;
                    w.remove(i);
                    return Ok(w);
                }
                i = i + 1;
            }
            proof {
                assert forall|k: int| !is_first_id(v@, id@, k) by {
                    if 0 <= k < v@.len() {
                        assert(v@[k]@ != id@);
                    }
                }
            }
            Err(ContractError::IncorrectCallbackId { expected: id.clone(), ids: v })
        },
    }
}

/// Handles a primitive's answer to the bond `bond_id`: the sender must be a
/// primitive that has not answered before; its answer is recorded; once every
/// primitive answered, the bond leaves the user's pending bonds and the sum
/// of the answered shares (over as many stubs as there are primitives) is minted.
#[verifier::loop_isolation(false)]
pub fn on_bond(primitives: &Vec<PrimitiveConfig>, stubs: Vec<BondingStub>, sender: &String, share_amount: u128,
    bond_id: &String, pending_bond_ids: Option<Vec<String>>) -> (r: Result<OnBondOutcome, ContractError>)
    requires
        stubs@.len() < 0x1_0000_0000,
        ({
            let ps = primitives@;
            let updated = record_answer(stubs@, sender@, BondResponse { share_amount, bond_id: *bond_id });
            let n = if stubs@.len() < ps.len() { stubs@.len() as int } else { ps.len() as int };
            let removable = match pending_bond_ids {
                None => true,
                Some(v) => without_first(v@, bond_id@) is Some,
            };
            is_primitive(ps, sender@) && !already_answered(stubs@, sender@) && unanswered(updated) == 0 && removable
                && weights_total(ps) < pow2_128()
                ==> forall|i: int| 0 <= i < n && answered_shares(updated, i) < pow2_128() ==>
                    match (#[trigger] updated[i]).bond_response {
                        Some(b) => b.share_amount * dec_frac() < pow2_128(),
                        None => true,
                    }
        }),
    ensures
        ({
            let ps = primitives@;
            let resp = BondResponse { share_amount, bond_id: *bond_id };
            let updated = record_answer(stubs@, sender@, resp);
            let n = if stubs@.len() < ps.len() { stubs@.len() as int } else { ps.len() as int };
            if !is_primitive(ps, sender@) {
                r == Err::<OnBondOutcome, ContractError>(ContractError::Unauthorized)
            } else if already_answered(stubs@, sender@) {
                r == Err::<OnBondOutcome, ContractError>(ContractError::DuplicateBondResponse { bond_id: *bond_id })
            } else if unanswered(updated) > 0 {
                r matches Ok(OnBondOutcome::Pending { stubs: s, pending: p }) && s@ == updated && p == unanswered(updated)
            } else {
                let removable = match pending_bond_ids {
                    None => true,
                    Some(v) => without_first(v@, bond_id@) is Some,
                };
                if !removable {
                    r == Err::<OnBondOutcome, ContractError>(ContractError::IncorrectCallbackId {
                        expected: *bond_id, ids: pending_bond_ids->Some_0 })
                } else {
                    if weights_total(ps) >= pow2_128() {
                        r == Err::<OnBondOutcome, ContractError>(ContractError::OverflowError(OverflowError { operation: OverflowOperation::Add }))
                    } else if answered_shares(updated, n) >= pow2_128() {
                        r == Err::<OnBondOutcome, ContractError>(ContractError::OverflowError(OverflowError { operation: OverflowOperation::Add }))
                    } else {
                        r matches Ok(OnBondOutcome::Minted { stubs: s, pending_bond_ids: ids, shares_to_mint: m })
                            && s@ == updated && m == answered_shares(updated, n)
                            && match pending_bond_ids {
                                None => ids@.len() == 0,
                                Some(v) => Some(ids@) == without_first(v@, bond_id@),
                            }
                    }
                }
            }
        }),
{
    let ghost ps = primitives@;
    // the sender must be one of the primitives
    let mut k: usize = 0;
    let mut found = false;
    while k < primitives.len()
        invariant
            ps == primitives@,
            k <= ps.len(),
            !found ==> forall|j: int| 0 <= j < k ==> ps[j].address@ != sender@,
            found ==> is_primitive(ps, sender@),
        decreases ps.len() - k,
    {
        if primitives[k].address == *sender {
            found = true;
        }
        k = k + 1;
    }
    if !found {
        return Err(ContractError::Unauthorized);
    }
    // the sender must not have answered before
    let mut j: usize = 0;
    while j < stubs.len()
        invariant
            j <= stubs@.len(),
            forall|i: int| 0 <= i < j ==> !(#[trigger] stubs@[i].address@ == sender@ && stubs@[i].bond_response is Some),
        decreases stubs@.len() - j,
    {
        if stubs[j].address == *sender && stubs[j].bond_response.is_some() {
            assert(stubs@[j as int].address@ == sender@ && stubs@[j as int].bond_response is Some);
            return Err(ContractError::DuplicateBondResponse { bond_id: bond_id.clone() });
        }
        j = j + 1;
    }
    // record the answer on every stub of the sender
    let ghost resp = BondResponse { share_amount, bond_id: *bond_id };
    let ghost updated = record_answer(stubs@, sender@, resp);
    let mut out: Vec<BondingStub> = Vec::new();
    let mut pending: u32 = 0;
    let mut i: usize = 0;
    while i < stubs.len()
        invariant
            i <= stubs@.len(),
            stubs@.len() < 0x1_0000_0000,
            updated == record_answer(stubs@, sender@, resp),
            resp == (BondResponse { share_amount, bond_id: *bond_id }),
            out@ =~= updated.subrange(0, i as int),
            pending == unanswered(updated.subrange(0, i as int)),
        decreases stubs@.len() - i,
    {
        let s = &stubs[i];
        let next = if s.address == *sender {
            BondingStub {
                address: s.address.clone(),
                bond_response: Some(BondResponse { share_amount, bond_id: bond_id.clone() }),
                primitive_value: s.primitive_value,
                amount: s.amount,
            }
        } else {
            BondingStub {
                address: s.address.clone(),
                bond_response: match &s.bond_response {
                    Some(b) => Some(BondResponse { share_amount: b.share_amount, bond_id: b.bond_id.clone() }),
                    None => None,
                },
                primitive_value: s.primitive_value,
                amount: s.amount,
            }
        };
        proof {
            assert(updated.subrange(0, i + 1).drop_last() =~= updated.subrange(0, i as int));
            lemma_unanswered_bound(updated.subrange(0, i as int));
        }
        if next.bond_response.is_none() {
            pending = pending + 1;
        }
        out.push(next);
        i = i + 1;
    }
    assert(updated.subrange(0, stubs@.len() as int) =~= updated);
    if pending > 0 {
        return Ok(OnBondOutcome::Pending { stubs: out, pending });
    }
    proof { lemma_unanswered_zero(updated); }
    let ids = remove_pending_id(pending_bond_ids, bond_id)?;
    // the total weight must not overflow
    let mut total: u128 = 0;
    let mut w: usize = 0;
    while w < primitives.len()
        invariant
            ps == primitives@,
            w <= ps.len(),
            total as int == weights_total(ps.subrange(0, w as int)),
        decreases ps.len() - w,
    {
        proof { assert(ps.subrange(0, w + 1).drop_last() =~= ps.subrange(0, w as int)); }
        match total.checked_add(primitives[w].weight.atomics) {
            Some(t) => { total = t; },
            None => {
                proof { lemma_weights_total_prefix(ps, w as int + 1); }
                return Err(ContractError::OverflowError(OverflowError { operation: OverflowOperation::Add }));
            },
        }
        w = w + 1;
    }
    assert(ps.subrange(0, ps.len() as int) =~= ps);
    // the minted shares: the answered shares over the stubs paired with primitives
    let n: usize = if out.len() < primitives.len() { out.len() } else { primitives.len() };
    let mut minted: u128 = 0;
    let mut m: usize = 0;
    while m < n
        invariant
            n <= out@.len(),
            out@ == updated,
            forall|q: int| 0 <= q < updated.len() ==> (#[trigger] updated[q]).bond_response is Some,
            m <= n,
            minted as int == answered_shares(updated, m as int),
        decreases n - m,
    {
        let share = match &out[m].bond_response {
            Some(b) => b.share_amount,
            None => 0,
        };
        match minted.checked_add(share) {
            Some(t) => { minted = t; },
            None => {
                proof { lemma_answered_shares_mono(updated, m as int + 1, n as int); }
                return Err(ContractError::OverflowError(OverflowError { operation: OverflowOperation::Add }));
            },
        }
        m = m + 1;
    }
    Ok(OnBondOutcome::Minted { stubs: out, pending_bond_ids: ids, shares_to_mint: minted })
}

proof fn lemma_weights_total_prefix(ps: Seq<PrimitiveConfig>, k: int)
    requires
        0 <= k <= ps.len(),
    ensures
        weights_total(ps.subrange(0, k)) <= weights_total(ps),
    decreases ps.len() - k,
{
    if k < ps.len() {
        lemma_weights_total_prefix(ps, k + 1);
        assert(ps.subrange(0, k + 1).drop_last() =~= ps.subrange(0, k));
    } else {
        assert(ps.subrange(0, k) =~= ps);
    }
}

proof fn lemma_answered_shares_mono(stubs: Seq<BondingStub>, a: int, b: int)
    requires
        0 <= a <= b,
    ensures
        answered_shares(stubs, a) <= answered_shares(stubs, b),
    decreases b - a,
{
    if a < b {
        lemma_answered_shares_mono(stubs, a, b - 1);
    }
}

/// A primitive's answer to an unbond.
#[derive(Debug, Clone, PartialEq, Eq)]
pub struct UnbondResponse {
    pub unbond_id: String,
}

/// The state of an unbond with one primitive.
#[derive(Debug, Clone, PartialEq, Eq)]
pub struct UnbondingStub {
    /// the address of the primitive
    pub address: String,
    /// when the primitive's funds unlock, once it said so
    pub unlock_time: Option<u64>,
    /// the primitive's answer; once present, the unbond with it is done
    pub unbond_response: Option<UnbondResponse>,
    /// the funds that came with the answer
    pub unbond_funds: Vec<Coin>,
}

/// An unbond over all primitives, and the vault shares it burnt.
#[derive(Debug, Clone, PartialEq, Eq)]
pub struct Unbond {
    pub stub: Vec<UnbondingStub>,
    pub shares: u128,
}

/// `i` is the first stub of the primitive at `a`.
pub open spec fn is_first_stub(stubs: Seq<UnbondingStub>, a: Seq<char>, i: int) -> bool {
    &&& 0 <= i < stubs.len()
    &&& stubs[i].address@ == a
    &&& forall|j: int| 0 <= j < i ==> stubs[j].address@ != a
}

/// The first stub of the primitive at `a`, if any.
pub open spec fn first_stub(stubs: Seq<UnbondingStub>, a: Seq<char>) -> Option<int> {
    if exists|i: int| is_first_stub(stubs, a, i) {
        Some(choose|i: int| is_first_stub(stubs, a, i))
    } else {
        None
    }
}

/// The first stub of the primitive at `a`.
fn find_stub(stubs: &Vec<UnbondingStub>, a: &String) -> (r: Option<usize>)
    ensures
        match r {
            Some(i) => first_stub(stubs@, a@) == Some(i as int) && i < stubs@.len(),
            None => first_stub(stubs@, a@) is None,
        },
{
    let mut i: usize = 0;
    while i < stubs.len()
        invariant
            i <= stubs@.len(),
            forall|j: int| 0 <= j < i ==> stubs@[j].address@ != a@,
        decreases stubs@.len() - i,
    {
        if stubs[i].address == *a {
            proof {
                assert(is_first_stub(stubs@, a@, i as int));
                assert forall|k: int| is_first_stub(stubs@, a@, k) implies k == i by {
                    if k > i {
                        assert(stubs@[i as int].address@ == a@);
                    }
                }
            }
            return Some(i);
        }
        i = i + 1;
    }
    proof {
        assert forall|k: int| !is_first_stub(stubs@, a@, k) by {
            if 0 <= k < stubs@.len() {
                assert(stubs@[k].address@ != a@);
            }
        }
    }
    None
}

/// Whether `a` is the address of one of the primitives.
fn find_primitive(primitives: &Vec<PrimitiveConfig>, a: &String) -> (r: bool)
    ensures
        r == is_primitive(primitives@, a@),
{
    let mut k: usize = 0;
    while k < primitives.len()
        invariant
            k <= primitives@.len(),
            forall|j: int| 0 <= j < k ==> primitives@[j].address@ != a@,
        decreases primitives@.len() - k,
    {
        if primitives[k].address == *a {
            assert(primitives@[k as int].address@ == a@);
            return true;
        }
        k = k + 1;
    }
    false
}

/// Records when a primitive's funds of an unbond unlock, on its first stub.
pub fn on_start_unbond(primitives: &Vec<PrimitiveConfig>, unbond: Option<Unbond>, sender: &String, unlock_time: u64)
    -> (r: Result<Unbond, ContractError>)
    ensures
        if !is_primitive(primitives@, sender@) {
            r == Err::<Unbond, ContractError>(ContractError::Unauthorized)
        } else {
            match unbond {
                None => r == Err::<Unbond, ContractError>(ContractError::UnbondIsEmpty),
                Some(u) => match first_stub(u.stub@, sender@) {
                    None => r == Err::<Unbond, ContractError>(ContractError::UnbondStubIsEmpty),
                    Some(i) => r is Ok && r->Ok_0.shares == u.shares
                        && r->Ok_0.stub@ == u.stub@.update(i, UnbondingStub {
                            address: u.stub@[i].address,
                            unlock_time: Some(unlock_time),
                            unbond_response: u.stub@[i].unbond_response,
                            unbond_funds: u.stub@[i].unbond_funds,
                        }),
                },
            }
        },
{
    if !find_primitive(primitives, sender) {
        return Err(ContractError::Unauthorized);
    }
    let mut u = match unbond {
        Some(u) => u,
        None => { return Err(ContractError::UnbondIsEmpty); },
    };
    match find_stub(&u.stub, sender) {
        None => Err(ContractError::UnbondStubIsEmpty),
        Some(i) => {
            let mut stubs = u.stub;
            let mut placeholder = UnbondingStub { address: String::new(), unlock_time: None, unbond_response: None, unbond_funds: Vec::new() };
            stubs.set_and_swap(i, &mut placeholder);
            let updated = UnbondingStub {
                address: placeholder.address,
                unlock_time: Some(unlock_time),
                unbond_response: placeholder.unbond_response,
                unbond_funds: placeholder.unbond_funds,
            };
            stubs.set(i, updated);
            Ok(Unbond { stub: stubs, shares: u.shares })
        },
    }
}

/// What an unbond answer leads to.
#[derive(Debug, Clone, PartialEq, Eq)]
pub enum OnUnbondOutcome {
    /// some primitives have not answered yet
    Pending { unbond: Unbond },
    /// every primitive answered: their funds go to the user, and the unbond
    /// leaves the user's pending unbonds
    Done { payments: Vec<BankSend>, pending_unbond_ids: Vec<String> },
}

/// The number of stubs still waiting on an answer.
pub open spec fn unbond_unanswered(stubs: Seq<UnbondingStub>) -> bool {
    exists|i: int| 0 <= i < stubs.len() && (#[trigger] stubs[i]).unbond_response is None
}

/// `ids` without any occurrence of `id`.
pub open spec fn without_all(ids: Seq<String>, id: Seq<char>) -> Seq<String>
    decreases ids.len(),
{
    if ids.len() == 0 {
        ids
    } else if ids.last()@ != id {
        without_all(ids.drop_last(), id).push(ids.last())
    } else {
        without_all(ids.drop_last(), id)
    }
}

/// Handles a primitive's answer to the unbond `unbond_id` with the funds it
/// sent: recorded on its first stub; once every primitive answered, each
/// stub's funds are paid to `user_address`, and the unbond leaves the user's
/// pending unbonds.
#[verifier::loop_isolation(false)]
pub fn on_unbond(primitives: &Vec<PrimitiveConfig>, unbond: Unbond, sender: &String, unbond_id: &String,
    funds: Vec<Coin>, user_address: &String, pending_unbond_ids: Option<Vec<String>>)
    -> (r: Result<OnUnbondOutcome, ContractError>)
    requires
        funds@.len() > 0,
    ensures
        if !is_primitive(primitives@, sender@) {
            r == Err::<OnUnbondOutcome, ContractError>(ContractError::Unauthorized)
        } else {
            match first_stub(unbond.stub@, sender@) {
                None => r == Err::<OnUnbondOutcome, ContractError>(ContractError::UnbondStubIsEmpty),
                Some(i) => {
                    let updated = unbond.stub@.update(i, UnbondingStub {
                        address: unbond.stub@[i].address,
                        unlock_time: unbond.stub@[i].unlock_time,
                        unbond_response: Some(UnbondResponse { unbond_id: *unbond_id }),
                        unbond_funds: funds,
                    });
                    if unbond_unanswered(updated) {
                        r matches Ok(OnUnbondOutcome::Pending { unbond: u }) && u.stub@ == updated && u.shares == unbond.shares
                    } else {
                        match pending_unbond_ids {
                            None => r == Err::<OnUnbondOutcome, ContractError>(ContractError::NoPendingUnbonds),
                            Some(ids) => r matches Ok(OnUnbondOutcome::Done { payments: p, pending_unbond_ids: rest })
                                && rest@ == without_all(ids@, unbond_id@)
                                && p@.len() == updated.len()
                                && forall|k: int| 0 <= k < updated.len() ==>
                                    (#[trigger] p@[k]).to_address@ == user_address@ && p@[k].amount == updated[k].unbond_funds,
                        }
                    }
                },
            }
        },
{
    if !find_primitive(primitives, sender) {
        return Err(ContractError::Unauthorized);
    }
    let i = match find_stub(&unbond.stub, sender) {
        Some(i) => i,
        None => { return Err(ContractError::UnbondStubIsEmpty); },
    };
    let shares = unbond.shares;
    let mut stubs = unbond.stub;
    let mut placeholder = UnbondingStub { address: String::new(), unlock_time: None, unbond_response: None, unbond_funds: Vec::new() };
    stubs.set_and_swap(i, &mut placeholder);
    let updated = UnbondingStub {
        address: placeholder.address,
        unlock_time: placeholder.unlock_time,
        unbond_response: Some(UnbondResponse { unbond_id: unbond_id.clone() }),
        unbond_funds: funds,
    };
    stubs.set(i, updated);
    assert(stubs@ == unbond.stub@.update(i as int, UnbondingStub {
        address: unbond.stub@[i as int].address,
        unlock_time: unbond.stub@[i as int].unlock_time,
        unbond_response: Some(UnbondResponse { unbond_id: *unbond_id }),
        unbond_funds: funds,
    }));
    let mut k: usize = 0;
    while k < stubs.len()
        invariant
            k <= stubs@.len(),
            forall|q: int| 0 <= q < k ==> (#[trigger] stubs@[q]).unbond_response is Some,
        decreases stubs@.len() - k,
    {
        if stubs[k].unbond_response.is_none() {
            assert(stubs@[k as int].unbond_response is None);
            return Ok(OnUnbondOutcome::Pending { unbond: Unbond { stub: stubs, shares } });
        }
        k = k + 1;
    }
    assert(!unbond_unanswered(stubs@)) by {
        assert forall|q: int| 0 <= q < stubs@.len() implies (#[trigger] stubs@[q]).unbond_response is Some by {}
    }
    let ids = match pending_unbond_ids {
        Some(ids) => ids,
        None => { return Err(ContractError::NoPendingUnbonds); },
    };
    let mut payments: Vec<BankSend> = Vec::new();
    let n = stubs.len();
    let ghost all = stubs@;
    let mut rest_stubs = stubs;
    let mut m: usize = 0;
    while m < n
        invariant
            n == all.len(),
            m <= n,
            rest_stubs@ =~= all.subrange(m as int, n as int),
            payments@.len() == m,
            forall|q: int| 0 <= q < m ==>
                (#[trigger] payments@[q]).to_address@ == user_address@ && payments@[q].amount == all[q].unbond_funds,
        decreases n - m,
    {
        let s = rest_stubs.remove(0);
        proof {
            assert(s == all[m as int]);
        }
        payments.push(BankSend { to_address: user_address.clone(), amount: s.unbond_funds });
        m = m + 1;
    }
    let mut rest: Vec<String> = Vec::new();
    let mut q: usize = 0;
    while q < ids.len()
        invariant
            q <= ids@.len(),
            rest@ == without_all(ids@.subrange(0, q as int), unbond_id@),
        decreases ids@.len() - q,
    {
        proof {
            assert(ids@.subrange(0, q + 1).drop_last() =~= ids@.subrange(0, q as int));
        }
        if ids[q] != *unbond_id {
            rest.push(ids[q].clone());
        } else {
            assert(ids@[q as int]@ == unbond_id@);
        }
        q = q + 1;
    }
    assert(ids@.subrange(0, ids@.len() as int) =~= ids@);
    Ok(OnUnbondOutcome::Done { payments, pending_unbond_ids: rest })
}

/// The share of each primitive's shares that an unbond of `amount` vault
/// shares out of `supply` takes: `amount / supply * balance`, rounded down,
/// in decimal arithmetic.
pub open spec fn primitive_unbond_share(amount: int, supply: int, balance: int) -> int {
    (amount * dec_frac() / supply) * (balance * dec_frac()) / dec_frac() / dec_frac()
}

/// The error of the first primitive whose share of an unbond (a part
/// `part` of its `balances` entry) cannot be computed, if any: its balance
/// as a decimal, or the product, leaves the 128-bit range.
pub open spec fn start_unbond_failure(part: int, balances: Seq<u128>) -> Option<ContractError>
    decreases balances.len(),
{
    if balances.len() == 0 {
        None
    } else if balances[0] * dec_frac() >= pow2_128() {
        Some(ContractError::MultiplyRatioError(CheckedFromRatioError::Overflow))
    } else if part * (balances[0] * dec_frac()) / dec_frac() >= pow2_128() {
        Some(ContractError::OverflowError(OverflowError { operation: OverflowOperation::Mul }))
    } else {
        start_unbond_failure(part, balances.drop_first())
    }
}

/// What starting an unbond does: the shares to unbond from each primitive,
/// the unbond to record under its id, the user's pending unbond ids with
/// this one added, and the next sequence number.
#[derive(Debug, Clone, PartialEq, Eq)]
pub struct StartUnbondPlan {
    pub shares_per_primitive: Vec<(String, u128)>,
    pub unbond: Unbond,
    pub unbond_id: String,
    pub pending_unbond_ids: Vec<String>,
    pub next_seq: u128,
}

/// Plans an unbond of `amount` vault shares out of `supply`, given the vault's
/// share balance with each primitive: none for no amount; an amount below the
/// minimum withdrawal is refused. CosmWasm panics on a zero supply, which
/// `requires` excludes.
#[verifier::loop_isolation(false)]
pub fn plan_start_unbond(invest: &InvestmentInfo, amount: Option<u128>, supply: u128, balances: &Vec<u128>, bond_seq: u128,
    pending_ids: Option<Vec<String>>) -> (r: Result<Option<StartUnbondPlan>, ContractError>)
    requires
        balances@.len() == invest.primitives@.len(),
        ({
            let a = match amount { Some(x) => x as int, None => 0 };
            a != 0 && a >= invest.min_withdrawal ==> supply != 0 && a * dec_frac() / (supply as int) < pow2_128()
        }),
    ensures
        ({
            let a = match amount { Some(x) => x as int, None => 0 };
            let ps = invest.primitives@;
            if a == 0 {
                r == Ok::<Option<StartUnbondPlan>, ContractError>(None)
            } else if a < invest.min_withdrawal {
                r == Err::<Option<StartUnbondPlan>, ContractError>(ContractError::UnbondTooSmall { min_bonded: invest.min_withdrawal })
            } else if start_unbond_failure(a * dec_frac() / (supply as int), balances@) is Some {
                r == Err::<Option<StartUnbondPlan>, ContractError>(start_unbond_failure(a * dec_frac() / (supply as int), balances@)->Some_0)
            } else if bond_seq + 1 > u128::MAX {
                r == Err::<Option<StartUnbondPlan>, ContractError>(ContractError::OverflowError(OverflowError { operation: OverflowOperation::Add }))
            } else {
                r matches Ok(Some(plan)) && plan.next_seq == bond_seq + 1
                    && plan.unbond_id@ == decimal_text(bond_seq as nat)
                    && plan.pending_unbond_ids@ == match pending_ids {
                        Some(ids) => ids@.push(plan.unbond_id),
                        None => seq![plan.unbond_id],
                    }
                    && plan.unbond.shares == a
                    && plan.shares_per_primitive@.len() == ps.len()
                    && plan.unbond.stub@.len() == ps.len()
                    && forall|i: int| 0 <= i < ps.len() ==> {
                        &&& (#[trigger] plan.shares_per_primitive@[i]).0 == ps[i].address
                        &&& plan.shares_per_primitive@[i].1 == primitive_unbond_share(a, supply as int, balances@[i] as int)
                        &&& plan.unbond.stub@[i].address == ps[i].address
                        &&& plan.unbond.stub@[i].unlock_time is None
                        &&& plan.unbond.stub@[i].unbond_response is None
                        &&& plan.unbond.stub@[i].unbond_funds@.len() == 0
                    }
            }
        }),
{
    let unbond_amount = match amount { Some(x) => x, None => 0 };
    if unbond_amount == 0 {
        return Ok(None);
    }
    if unbond_amount < invest.min_withdrawal {
        return Err(ContractError::UnbondTooSmall { min_bonded: invest.min_withdrawal });
    }
    let part = Decimal::from_ratio(unbond_amount, supply);
    let ps = &invest.primitives;
    assert(balances@.skip(0) =~= balances@);
    let mut shares: Vec<(String, u128)> = Vec::new();
    let mut stubs: Vec<UnbondingStub> = Vec::new();
    let mut i: usize = 0;
    while i < ps.len()
        invariant
            i <= ps@.len(),
            balances@.len() == ps@.len(),
            part@ == unbond_amount * dec_frac() / (supply as int),
            supply != 0,
            shares@.len() == i,
            stubs@.len() == i,
            forall|k: int| 0 <= k < i ==> #[trigger] balances@[k] * dec_frac() < pow2_128(),
            forall|k: int| 0 <= k < i ==> part@ * (#[trigger] balances@[k] * dec_frac()) / dec_frac() < pow2_128(),
            start_unbond_failure(part@, balances@) == start_unbond_failure(part@, balances@.skip(i as int)),
            forall|k: int| 0 <= k < i ==> {
                &&& (#[trigger] shares@[k]).0 == ps@[k].address
                &&& shares@[k].1 == primitive_unbond_share(unbond_amount as int, supply as int, balances@[k] as int)
                &&& stubs@[k].address == ps@[k].address
                &&& stubs@[k].unlock_time is None
                &&& stubs@[k].unbond_response is None
                &&& stubs@[k].unbond_funds@.len() == 0
            },
        decreases ps@.len() - i,
    {
        proof {
            assert(balances@.skip(i as int).drop_first() =~= balances@.skip(i + 1));
            assert(balances@.skip(i as int)[0] == balances@[i as int]);
        }
        let bal = match Decimal::from_uint128(balances[i]) {
            Ok(v) => v,
            Err(e) => {
                assert(balances@[i as int] * dec_frac() >= pow2_128());
                return Err(ContractError::MultiplyRatioError(e));
            },
        };
        let share_dec = match part.checked_mul(bal) {
            Ok(v) => v,
            Err(e) => {
                assert(part@ * (balances@[i as int] * dec_frac()) / dec_frac() >= pow2_128());
                return Err(ContractError::OverflowError(e));
            },
        };
        shares.push((ps[i].address.clone(), share_dec.to_uint_floor()));
        stubs.push(UnbondingStub { address: ps[i].address.clone(), unlock_time: None, unbond_response: None, unbond_funds: Vec::new() });
        i = i + 1;
    }
    assert(start_unbond_failure(part@, balances@.skip(ps@.len() as int)) is None);
    let next_seq = match bond_seq.checked_add(1) {
        Some(v) => v,
        None => { return Err(ContractError::OverflowError(OverflowError { operation: OverflowOperation::Add })); },
    };
    let unbond_id = u128_text(bond_seq);
    let pending_unbond_ids = push_pending_id(pending_ids, unbond_id.clone());
    Ok(Some(StartUnbondPlan {
        shares_per_primitive: shares,
        unbond: Unbond { stub: stubs, shares: unbond_amount },
        unbond_id,
        pending_unbond_ids,
        next_seq,
    }))
}

/// Adds an id to a user's pending ids.
pub fn push_pending_id(ids: Option<Vec<String>>, id: String) -> (r: Vec<String>)
    ensures
        r@ == match ids {
            Some(v) => v@.push(id),
            None => seq![id],
        },
{
    match ids {
        Some(mut v) => {
            v.push(id);
            v
        },
        None => {
            let mut v = Vec::new();
            v.push(id);
            v
        },
    }
}

/// A primitive's record of an unbond: whether it was attempted, and when its funds unlock.
#[derive(Debug, Clone, Copy, PartialEq, Eq, Structural)]
pub struct UnbondingClaim {
    pub attempted: bool,
    pub unlock_time: u64,
}

/// Whether a stub's funds may have unlocked: its unlock time is known and
/// passed. Only then is the primitive asked about its record.
pub fn unlock_passed(stub: &UnbondingStub, now: u64) -> (r: bool)
    ensures
        r == match stub.unlock_time {
            Some(t) => t < now,
            None => false,
        },
{
    match stub.unlock_time {
        Some(t) => t < now,
        None => false,
    }
}

/// Whether to unbond from a primitive, given its record of the unbond: not
/// after an attempt; with no record, yes; else once the funds unlocked.
pub fn can_unbond_after_claim(claim: Option<UnbondingClaim>, now: u64) -> (r: bool)
    ensures
        r == match claim {
            None => true,
            Some(c) => !c.attempted && c.unlock_time < now,
        },
{
    match claim {
        None => true,
        Some(c) => if c.attempted { false } else { c.unlock_time < now },
    }
}

} // verus!
