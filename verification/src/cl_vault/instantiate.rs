use vstd::prelude::*;
use crate::cl_vault::coinlist::osmo_coin_of;
use crate::cl_vault::concentrated_liquidity::{create_position, MsgCreatePosition};
use crate::cl_vault::error::{is_generic_err, ContractError, StdError};
use crate::cl_vault::helpers::{coin_or_zero, must_pay_one_or_two};
use crate::cl_vault::state::PoolConfig;
use crate::coin::Coin;
use crate::math::decimal::{dec_frac, Decimal};
use crate::text::decimal_text;

verus! {

/// A performance fee above one (more than all of the profit) is refused.
pub fn check_performance_fee(performance_fee: Decimal) -> (r: Result<(), ContractError>)
    ensures
        performance_fee@ <= dec_frac() ==> r is Ok,
        performance_fee@ > dec_frac() ==> r is Err
            && is_generic_err(r->Err_0, "performance fee cannot be more than 1.0"@),
{
    if Decimal::one().lt(&performance_fee) {
        Err(ContractError::Std(StdError::GenericErr { msg: "performance fee cannot be more than 1.0".to_string() }))
    } else {
        Ok(())
    }
}

/// What instantiating the vault stores and sends once its pool is known:
/// the pool's configuration, and the request that opens the initial
/// position with the funds sent (which count as burnt).
#[derive(Debug, Clone, PartialEq, Eq)]
pub struct InstantiatePlan {
    pub pool_config: PoolConfig,
    pub create_position: MsgCreatePosition,
}

/// Plans the rest of instantiation from the pool the pool manager reported
/// for `pool_id`: a missing pool is refused, then funds other than one or two
/// coins; the initial position gets the coins of the pool's two tokens (a
/// zero coin for one not sent), with no minimum amounts.
pub fn plan_instantiate(
    pool_id: u64,
    pool: Option<PoolConfig>,
    funds: &Vec<Coin>,
    contract: &String,
    initial_lower_tick: i64,
    initial_upper_tick: i64,
) -> (r: Result<InstantiatePlan, ContractError>)
    ensures
        match pool {
            None => r == Err::<InstantiatePlan, ContractError>(ContractError::PoolNotFound { pool_id }),
            Some(p) => if funds@.len() != 1 && funds@.len() != 2 {
                r == Err::<InstantiatePlan, ContractError>(ContractError::IncorrectAmountFunds)
            } else {
                r matches Ok(plan) && {
                    let m = plan.create_position;
                    &&& plan.pool_config == p
                    &&& m.pool_id == p.pool_id
                    &&& m.sender@ == contract@
                    &&& m.lower_tick == initial_lower_tick
                    &&& m.upper_tick == initial_upper_tick
                    &&& m.tokens_provided@.len() == 2
                    &&& (m.tokens_provided@[0].denom@, m.tokens_provided@[0].amount@) == osmo_coin_of(coin_or_zero(funds@, p.token0))
                    &&& (m.tokens_provided@[1].denom@, m.tokens_provided@[1].amount@) == osmo_coin_of(coin_or_zero(funds@, p.token1))
                    &&& m.token_min_amount0@ == decimal_text(0)
                    &&& m.token_min_amount1@ == decimal_text(0)
                }
            },
        },
{
    let p = match pool {
        Some(p) => p,
        None => { return Err(ContractError::PoolNotFound { pool_id }); },
    };
    let (initial0, initial1) = match must_pay_one_or_two(funds, (p.token0.clone(), p.token1.clone())) {
        Ok(v) => v,
        Err(e) => { return Err(e); },
    };
    let mut tokens: Vec<Coin> = Vec::new();
    tokens.push(initial0);
    tokens.push(initial1);
    let msg = create_position(&p, contract, initial_lower_tick, initial_upper_tick, &tokens, 0, 0);
    proof {
        assert(tokens@[0] == coin_or_zero(funds@, p.token0));
        assert(tokens@[1] == coin_or_zero(funds@, p.token1));
        assert((msg.tokens_provided@[0].denom@, msg.tokens_provided@[0].amount@) == osmo_coin_of(tokens@[0]));
        assert((msg.tokens_provided@[1].denom@, msg.tokens_provided@[1].amount@) == osmo_coin_of(tokens@[1]));
    }
    Ok(InstantiatePlan { pool_config: p, create_position: msg })
}

} // verus!
