use vstd::prelude::*;
use crate::cl_vault::error::ContractError;
use crate::cl_vault::state::CurrentMergePosition;
use crate::coin::Coin;

verus! {

/// The answer of a merge: the id of the position it created.
#[derive(Debug, Clone, Copy, PartialEq, Eq, Structural)]
pub struct MergeResponse {
    pub new_position_id: u64,
}

/// What a withdrawal of a merged position gave back.
#[derive(Debug, Clone, Copy, PartialEq, Eq, Structural)]
pub struct WithdrawResponse {
    pub amount0: u128,
    pub amount1: u128,
}

/// A withdrawal of one position of a merge: the position and its liquidity,
/// and its result once it came back.
#[derive(Debug, Clone, PartialEq, Eq)]
pub struct CurrentMergeWithdraw {
    pub result: Option<WithdrawResponse>,
    pub position_id: u64,
    pub liquidity_amount: String,
}

/// A position to merge: its id and its range.
#[derive(Debug, Clone, Copy, PartialEq, Eq, Structural)]
pub struct MergeCandidate {
    pub position_id: u64,
    pub lower_tick: i64,
    pub upper_tick: i64,
}

/// Every position has the range of the first.
pub open spec fn same_range(ps: Seq<MergeCandidate>) -> bool {
    forall|i: int| 0 <= i < ps.len() ==> (#[trigger] ps[i]).lower_tick == ps[0].lower_tick && ps[i].upper_tick == ps[0].upper_tick
}

/// The range of a merge: only the contract itself may merge, and all
/// positions must share the range of the first.
#[verifier::loop_isolation(false)]
pub fn merge_range(sender: &String, contract: &String, positions: &Vec<MergeCandidate>)
    -> (r: Result<CurrentMergePosition, ContractError>)
    requires
        positions@.len() > 0,
    ensures
        if sender@ != contract@ {
            r == Err::<CurrentMergePosition, ContractError>(ContractError::Unauthorized)
        } else if !same_range(positions@) {
            r == Err::<CurrentMergePosition, ContractError>(ContractError::DifferentTicksInMerge)
        } else {
            r == Ok::<CurrentMergePosition, ContractError>(CurrentMergePosition {
                lower_tick: positions@[0].lower_tick,
                upper_tick: positions@[0].upper_tick,
                claim_after_secs: None,
            })
        },
{
    if *sender != *contract {
        return Err(ContractError::Unauthorized);
    }
    let first = positions[0];
    let mut i: usize = 1;
    while i < positions.len()
        invariant
            1 <= i <= positions@.len(),
            first == positions@[0],
            forall|k: int| 0 <= k < i ==> (#[trigger] positions@[k]).lower_tick == first.lower_tick
                && positions@[k].upper_tick == first.upper_tick,
        decreases positions@.len() - i,
    {
        if positions[i].lower_tick != first.lower_tick || positions[i].upper_tick != first.upper_tick {
            assert(!same_range(positions@)) by {
                assert(positions@[i as int].lower_tick != positions@[0].lower_tick
                    || positions@[i as int].upper_tick != positions@[0].upper_tick);
            }
            return Err(ContractError::DifferentTicksInMerge);
        }
        i = i + 1;
    }
    Ok(CurrentMergePosition { lower_tick: first.lower_tick, upper_tick: first.upper_tick, claim_after_secs: None })
}

/// The next step of a merge after a withdrawal came back.
#[derive(Debug, Clone, PartialEq, Eq)]
pub enum MergeStep {
    /// dispatch the withdrawal of this position next
    Withdraw { position_id: u64, liquidity_amount: String },
    /// all withdrawals are back: create the merged position with these tokens
    CreatePosition { tokens: Vec<Coin> },
}

/// The sums of the withdrawn amounts of the first `n` withdrawals.
pub open spec fn withdrawn(q: Seq<CurrentMergeWithdraw>, n: int) -> (int, int)
    decreases n,
{
    if n <= 0 {
        (0, 0)
    } else {
        let prev = withdrawn(q, n - 1);
        match q[n - 1].result {
            Some(w) => (prev.0 + w.amount0, prev.1 + w.amount1),
            None => prev,
        }
    }
}

proof fn lemma_withdrawn_mono(q: Seq<CurrentMergeWithdraw>, a: int, b: int)
    requires
        0 <= a <= b,
    ensures
        0 <= withdrawn(q, a).0 <= withdrawn(q, b).0,
        0 <= withdrawn(q, a).1 <= withdrawn(q, b).1,
    decreases b - a,
{
    if a < b {
        lemma_withdrawn_mono(q, a, b - 1);
    } else {
        lemma_withdrawn_nonneg(q, a);
    }
}

proof fn lemma_withdrawn_nonneg(q: Seq<CurrentMergeWithdraw>, n: int)
    ensures
        withdrawn(q, n).0 >= 0,
        withdrawn(q, n).1 >= 0,
    decreases n,
{
    if n > 0 {
        lemma_withdrawn_nonneg(q, n - 1);
    }
}

/// The queue after the withdrawal at its front came back with `response`:
/// that withdrawal moves to the back with its result.
pub open spec fn rotated(q: Seq<CurrentMergeWithdraw>, response: WithdrawResponse) -> Seq<CurrentMergeWithdraw> {
    q.drop_first().push(CurrentMergeWithdraw {
        result: Some(response),
        position_id: q[0].position_id,
        liquidity_amount: q[0].liquidity_amount,
    })
}

/// Advances a merge when the withdrawal at the front of the queue came back:
/// it moves to the back with its result; if the new front already has a
/// result, every withdrawal is back and the merged position is created from
/// the sums of the non-zero amounts, else the new front is withdrawn next.
/// The queue must not be empty, and once every withdrawal is back every
/// entry has a result and the sums fit: elsewhere the contract panics.
pub fn advance_merge(queue: Vec<CurrentMergeWithdraw>, response: WithdrawResponse, token0: &String, token1: &String)
    -> (r: (Vec<CurrentMergeWithdraw>, MergeStep))
    requires
        queue@.len() > 0,
        rotated(queue@, response)[0].result is Some ==> {
            &&& forall|i: int| 0 <= i < queue@.len() ==> (#[trigger] rotated(queue@, response)[i]).result is Some
            &&& withdrawn(rotated(queue@, response), queue@.len() as int).0 <= u128::MAX
            &&& withdrawn(rotated(queue@, response), queue@.len() as int).1 <= u128::MAX
        },
    ensures
        ({
            let q = rotated(queue@, response);
            &&& r.0@ == q
            &&& match q[0].result {
                None => r.1 == MergeStep::Withdraw { position_id: q[0].position_id, liquidity_amount: q[0].liquidity_amount },
                Some(_) => {
                    let (a0, a1) = withdrawn(q, q.len() as int);
                    &&& r.1 matches MergeStep::CreatePosition { tokens }
                    &&& tokens@ == if a0 != 0 && a1 != 0 {
                        seq![Coin { denom: *token0, amount: a0 as u128 }, Coin { denom: *token1, amount: a1 as u128 }]
                    } else if a0 != 0 {
                        seq![Coin { denom: *token0, amount: a0 as u128 }]
                    } else if a1 != 0 {
                        seq![Coin { denom: *token1, amount: a1 as u128 }]
                    } else {
                        Seq::empty()
                    }
                },
            }
        }),
{
    let ghost q = rotated(queue@, response);
    let mut rest = queue;
    let last = rest.remove(0);
    rest.push(CurrentMergeWithdraw { result: Some(response), position_id: last.position_id, liquidity_amount: last.liquidity_amount });
    assert(rest@ =~= q);
    let next_result = rest[0].result;
    match next_result {
        None => {
            let step = MergeStep::Withdraw { position_id: rest[0].position_id, liquidity_amount: rest[0].liquidity_amount.clone() };
            (rest, step)
        },
        Some(_) => {
            let mut a0: u128 = 0;
            let mut a1: u128 = 0;
            let mut i: usize = 0;
            while i < rest.len()
                invariant
                    rest@ == q,
                    i <= q.len(),
                    forall|k: int| 0 <= k < q.len() ==> (#[trigger] q[k]).result is Some,
                    withdrawn(q, q.len() as int).0 <= u128::MAX,
                    withdrawn(q, q.len() as int).1 <= u128::MAX,
                    a0 == withdrawn(q, i as int).0,
                    a1 == withdrawn(q, i as int).1,
                decreases q.len() - i,
            {
                proof { lemma_withdrawn_mono(q, i + 1, q.len() as int); }
                let w = match rest[i].result {
                    Some(w) => w,
                    None => WithdrawResponse { amount0: 0, amount1: 0 },
                };
                a0 = a0 + w.amount0;
                a1 = a1 + w.amount1;
                i = i + 1;
            }
            let mut tokens: Vec<Coin> = Vec::new();
            if a0 != 0 {
                tokens.push(Coin { denom: token0.clone(), amount: a0 });
            }
            if a1 != 0 {
                tokens.push(Coin { denom: token1.clone(), amount: a1 });
            }
            proof {
                assert(tokens@ =~= (if a0 != 0 && a1 != 0 {
                    seq![Coin { denom: *token0, amount: a0 }, Coin { denom: *token1, amount: a1 }]
                } else if a0 != 0 {
                    seq![Coin { denom: *token0, amount: a0 }]
                } else if a1 != 0 {
                    seq![Coin { denom: *token1, amount: a1 }]
                } else {
                    Seq::empty()
                }));
            }
            (rest, MergeStep::CreatePosition { tokens })
        },
    }
}

} // verus!
