use vstd::prelude::*;
use crate::cl_vault::coinlist::{parse_u128, parse_u128_spec, OsmoCoin};
use crate::cl_vault::error::{ContractError, StdError};
use crate::cl_vault::state::PoolConfig;
use crate::coin::Coin;
use crate::text::{concat, decimal_text, u128_text};

verus! {

/// The direction of a swap between the pool's two tokens.
#[derive(Debug, Clone, Copy, PartialEq, Eq, Structural)]
pub enum SwapDirection {
    ZeroToOne,
    OneToZero,
}

/// One hop of a swap: the pool, and the token that comes out of it.
#[derive(Debug, Clone, PartialEq, Eq)]
pub struct SwapAmountInRoute {
    pub pool_id: u64,
    pub token_out_denom: String,
}

/// A swap of an exact amount in, as the pool manager is asked for it.
#[derive(Debug, Clone, PartialEq, Eq)]
pub struct MsgSwapExactAmountIn {
    pub sender: String,
    pub routes: Vec<SwapAmountInRoute>,
    pub token_in: OsmoCoin,
    pub token_out_min_amount: String,
}

/// A request to estimate the output of a swap of an exact amount in.
#[derive(Debug, Clone, PartialEq, Eq)]
pub struct EstimateSwapRequest {
    pub pool_id: u64,
    /// the amount in, in decimal digits, followed by its denomination
    pub token_in: String,
    pub routes: Vec<SwapAmountInRoute>,
}

/// The other token of the pool.
pub open spec fn other_token(pool: PoolConfig, token_in: Seq<char>) -> Seq<char> {
    if token_in == pool.token0@ { pool.token1@ } else { pool.token0@ }
}

/// The error for a token that is not one of the pool's.
pub open spec fn bad_token_error(pool: PoolConfig) -> ContractError {
    ContractError::BadTokenForSwap { base_token: pool.token0, quote_token: pool.token1 }
}

/// The route of a swap over the vault's pool: one hop, out into the pool's
/// other token; a token that is not the pool's is refused.
pub fn pool_swap_route(pool: &PoolConfig, token_in_denom: &String) -> (r: Result<SwapAmountInRoute, ContractError>)
    ensures
        if token_in_denom@ == pool.token0@ || token_in_denom@ == pool.token1@ {
            r matches Ok(route) && route.pool_id == pool.pool_id
                && route.token_out_denom@ == other_token(*pool, token_in_denom@)
        } else {
            r == Err::<SwapAmountInRoute, ContractError>(bad_token_error(*pool))
        },
{
    if !pool.pool_contains_token(token_in_denom.as_str()) {
        return Err(ContractError::BadTokenForSwap { base_token: pool.token0.clone(), quote_token: pool.token1.clone() });
    }
    let token_out_denom = if *token_in_denom == pool.token0 { pool.token1.clone() } else { pool.token0.clone() };
    Ok(SwapAmountInRoute { pool_id: pool.pool_id, token_out_denom })
}

/// The message that swaps `token_in_amount` of a pool token over the pool,
/// sent by `sender`, which holds `token_in_balance` of it. A token that is
/// not the pool's is refused, then a balance below the amount.
pub fn swap(
    pool: &PoolConfig,
    sender: &String,
    token_in_balance: u128,
    token_in_amount: u128,
    token_in_denom: &String,
    token_out_min_amount: u128,
) -> (r: Result<MsgSwapExactAmountIn, ContractError>)
    ensures
        !(token_in_denom@ == pool.token0@ || token_in_denom@ == pool.token1@)
            ==> r == Err::<MsgSwapExactAmountIn, ContractError>(bad_token_error(*pool)),
        (token_in_denom@ == pool.token0@ || token_in_denom@ == pool.token1@) && token_in_balance < token_in_amount
            ==> r == Err::<MsgSwapExactAmountIn, ContractError>(
                ContractError::InsufficientFundsForSwap { balance: token_in_balance, needed: token_in_amount }),
        (token_in_denom@ == pool.token0@ || token_in_denom@ == pool.token1@) && token_in_balance >= token_in_amount
            ==> (r matches Ok(m) && {
                &&& m.sender@ == sender@
                &&& m.routes@.len() == 1
                &&& m.routes@[0].pool_id == pool.pool_id
                &&& m.routes@[0].token_out_denom@ == other_token(*pool, token_in_denom@)
                &&& m.token_in.denom@ == token_in_denom@
                &&& m.token_in.amount@ == decimal_text(token_in_amount as nat)
                &&& m.token_out_min_amount@ == decimal_text(token_out_min_amount as nat)
            }),
{
    let route = match pool_swap_route(pool, token_in_denom) {
        Ok(route) => route,
        Err(e) => { return Err(e); },
    };
    if token_in_balance < token_in_amount {
        return Err(ContractError::InsufficientFundsForSwap { balance: token_in_balance, needed: token_in_amount });
    }
    let mut routes: Vec<SwapAmountInRoute> = Vec::new();
    routes.push(route);
    Ok(MsgSwapExactAmountIn {
        sender: sender.clone(),
        routes,
        token_in: OsmoCoin { denom: token_in_denom.clone(), amount: u128_text(token_in_amount) },
        token_out_min_amount: u128_text(token_out_min_amount),
    })
}

/// The request that estimates a swap of `token_in_amount` of a pool token
/// over the pool; a token that is not the pool's is refused.
pub fn estimate_swap_request(pool: &PoolConfig, token_in_amount: u128, token_in_denom: &String)
    -> (r: Result<EstimateSwapRequest, ContractError>)
    ensures
        if token_in_denom@ == pool.token0@ || token_in_denom@ == pool.token1@ {
            r matches Ok(q) && {
                &&& q.pool_id == pool.pool_id
                &&& q.token_in@ == decimal_text(token_in_amount as nat) + token_in_denom@
                &&& q.routes@.len() == 1
                &&& q.routes@[0].pool_id == pool.pool_id
                &&& q.routes@[0].token_out_denom@ == other_token(*pool, token_in_denom@)
            }
        } else {
            r == Err::<EstimateSwapRequest, ContractError>(bad_token_error(*pool))
        },
{
    let route = match pool_swap_route(pool, token_in_denom) {
        Ok(route) => route,
        Err(e) => { return Err(e); },
    };
    let amount = u128_text(token_in_amount);
    let token_in = concat(amount.as_str(), token_in_denom.as_str());
    let mut routes: Vec<SwapAmountInRoute> = Vec::new();
    routes.push(route);
    Ok(EstimateSwapRequest { pool_id: pool.pool_id, token_in, routes })
}

/// The text of the error that reading a `u128` from `s` gives.
pub uninterp spec fn u128_parse_error_text(s: Seq<char>) -> Seq<char>;

/// Rust's `str::parse::<u128>`, kept for the text of its error.
#[verifier::external_body]
fn u128_parse_error(s: &str) -> (r: String)
    ensures
        r@ == u128_parse_error_text(s@),
{
    match s.parse::<u128>() {
        Ok(_) => String::new(),
        Err(e) => e.to_string(),
    }
}

/// The estimated output of a swap, from the amount the pool manager reports:
/// a coin of the other token, or CosmWasm's error for an amount that is not
/// a decimal `u128`.
pub fn estimated_swap_output(token_out_denom: &String, token_out_amount: &String) -> (r: Result<Coin, ContractError>)
    ensures
        match parse_u128_spec(vstd::utf8::encode_utf8(token_out_amount@)) {
            Some(v) => r matches Ok(c) && c.denom@ == token_out_denom@ && c.amount == v,
            None => r matches Err(ContractError::Std(StdError::GenericErr { msg }))
                && msg@ == "Parsing u128: "@ + u128_parse_error_text(token_out_amount@),
        },
{
    match parse_u128(token_out_amount) {
        Some(v) => Ok(Coin { denom: token_out_denom.clone(), amount: v }),
        None => {
            let text = u128_parse_error(token_out_amount.as_str());
            Err(ContractError::Std(StdError::GenericErr { msg: concat("Parsing u128: ", text.as_str()) }))
        },
    }
}

/// Where a swap goes: over the vault's pool, or through the dex router by
/// the recommended path or by the best path the router knows.
#[derive(Debug, Clone, Copy, PartialEq, Eq, Structural)]
pub enum SwapRoute {
    Pool,
    RecommendedPath,
    BestPath,
}

/// Chooses where a swap goes. Without a router it goes over the pool. A
/// forced swap takes the recommended path, which it must have. Otherwise
/// the path with the larger simulated output wins, the best path on a tie,
/// and the pool when neither path yields anything. A missing recommended
/// path counts as yielding nothing.
pub fn select_swap_route(
    has_router: bool,
    force_swap_route: bool,
    has_recommended: bool,
    recommended_out: u128,
    best_out: u128,
) -> (r: Result<SwapRoute, ContractError>)
    ensures
        r == if !has_router {
            Ok::<SwapRoute, ContractError>(SwapRoute::Pool)
        } else if force_swap_route {
            if has_recommended {
                Ok(SwapRoute::RecommendedPath)
            } else {
                Err(ContractError::TryForceRouteWithoutRecommendedSwapRoute)
            }
        } else {
            let rec = if has_recommended { recommended_out } else { 0 };
            if best_out == 0 && rec == 0 {
                Ok(SwapRoute::Pool)
            } else if best_out >= rec {
                Ok(SwapRoute::BestPath)
            } else if has_recommended {
                Ok(SwapRoute::RecommendedPath)
            } else {
                Err(ContractError::MissingRecommendedSwapRoute)
            }
        },
{
    if !has_router {
        return Ok(SwapRoute::Pool);
    }
    let rec = if has_recommended { recommended_out } else { 0 };
    if force_swap_route {
        if has_recommended {
            Ok(SwapRoute::RecommendedPath)
        } else {
            Err(ContractError::TryForceRouteWithoutRecommendedSwapRoute)
        }
    } else if best_out == 0 && rec == 0 {
        Ok(SwapRoute::Pool)
    } else if best_out >= rec {
        Ok(SwapRoute::BestPath)
    } else if has_recommended {
        Ok(SwapRoute::RecommendedPath)
    } else {
        Err(ContractError::MissingRecommendedSwapRoute)
    }
}

/// What a swap is asked for: the amounts and denominations in and out, the
/// vault's pool, and the path that the caller recommends, if any, with
/// whether it must be taken.
#[derive(Debug, Clone, PartialEq, Eq)]
pub struct SwapParams {
    pub token_in_amount: u128,
    pub token_out_min_amount: u128,
    pub token_in_denom: String,
    pub token_out_denom: String,
    pub recommended_swap_route: Option<Vec<SwapAmountInRoute>>,
    pub force_swap_route: bool,
    pub pool_id: u64,
}

/// A swap through the dex router: along `path`, out into `out_denom`,
/// receiving at least `minimum_receive`, paid with `funds`.
#[derive(Debug, Clone, PartialEq, Eq)]
pub struct RouterSwap {
    pub router: String,
    pub path: Vec<SwapAmountInRoute>,
    pub out_denom: String,
    pub minimum_receive: u128,
    pub funds: Coin,
}

/// The message that performs a swap: over the pool, or through the router.
#[derive(Debug, Clone, PartialEq, Eq)]
pub enum SwapMessage {
    Pool(MsgSwapExactAmountIn),
    Router(RouterSwap),
}

/// `m` swaps over the pool of `params`, sent by `sender`: one hop out into
/// the token asked for, the amount in and the minimum out in decimal text.
pub open spec fn is_pool_swap(m: SwapMessage, sender: Seq<char>, params: SwapParams) -> bool {
    m matches SwapMessage::Pool(msg) && {
        &&& msg.sender@ == sender
        &&& msg.routes@.len() == 1
        &&& msg.routes@[0].pool_id == params.pool_id
        &&& msg.routes@[0].token_out_denom@ == params.token_out_denom@
        &&& msg.token_in.denom@ == params.token_in_denom@
        &&& msg.token_in.amount@ == decimal_text(params.token_in_amount as nat)
        &&& msg.token_out_min_amount@ == decimal_text(params.token_out_min_amount as nat)
    }
}

/// The hops of a path, by their views.
pub open spec fn path_view(path: Seq<SwapAmountInRoute>) -> Seq<(u64, Seq<char>)> {
    path.map_values(|h: SwapAmountInRoute| (h.pool_id, h.token_out_denom@))
}

/// `m` swaps through the router at `router` along `path`, out into the token
/// asked for, receiving at least the minimum out, paid with the amount in.
pub open spec fn is_router_swap(m: SwapMessage, router: Seq<char>, path: Seq<SwapAmountInRoute>, params: SwapParams) -> bool {
    m matches SwapMessage::Router(msg) && {
        &&& msg.router@ == router
        &&& path_view(msg.path@) == path_view(path)
        &&& msg.out_denom@ == params.token_out_denom@
        &&& msg.minimum_receive == params.token_out_min_amount
        &&& msg.funds.denom@ == params.token_in_denom@
        &&& msg.funds.amount == params.token_in_amount
    }
}

fn copy_path(path: &Vec<SwapAmountInRoute>) -> (r: Vec<SwapAmountInRoute>)
    ensures
        path_view(r@) == path_view(path@),
{
    let mut out: Vec<SwapAmountInRoute> = Vec::new();
    let mut i: usize = 0;
    while i < path.len()
        invariant
            i <= path@.len(),
            out@.len() == i,
            forall|k: int| 0 <= k < i ==> (#[trigger] out@[k]).pool_id == path@[k].pool_id
                && out@[k].token_out_denom@ == path@[k].token_out_denom@,
        decreases path@.len() - i,
    {
        out.push(SwapAmountInRoute { pool_id: path[i].pool_id, token_out_denom: path[i].token_out_denom.clone() });
        i = i + 1;
    }
    assert(path_view(out@) =~= path_view(path@));
    out
}

fn pool_swap_message(sender: &String, params: &SwapParams) -> (r: SwapMessage)
    ensures
        is_pool_swap(r, sender@, *params),
{
    let mut routes: Vec<SwapAmountInRoute> = Vec::new();
    routes.push(SwapAmountInRoute { pool_id: params.pool_id, token_out_denom: params.token_out_denom.clone() });
    SwapMessage::Pool(MsgSwapExactAmountIn {
        sender: sender.clone(),
        routes,
        token_in: OsmoCoin { denom: params.token_in_denom.clone(), amount: u128_text(params.token_in_amount) },
        token_out_min_amount: u128_text(params.token_out_min_amount),
    })
}

fn router_swap_message(router: &String, path: &Vec<SwapAmountInRoute>, params: &SwapParams) -> (r: SwapMessage)
    ensures
        is_router_swap(r, router@, path@, *params),
{
    SwapMessage::Router(RouterSwap {
        router: router.clone(),
        path: copy_path(path),
        out_denom: params.token_out_denom.clone(),
        minimum_receive: params.token_out_min_amount,
        funds: Coin { denom: params.token_in_denom.clone(), amount: params.token_in_amount },
    })
}

/// The message of a swap sent by the contract at `sender`. Without a router
/// it swaps over the pool, one hop out into the token asked for. With one,
/// `recommended_out` is what the router simulates for the recommended path
/// and `best_path` the router's best path with its output; the route is
/// chosen by `select_swap_route`, and the swap goes over the pool or through
/// the router along the chosen path.
pub fn swap_msg(sender: &String, router: &Option<String>, params: &SwapParams, recommended_out: u128,
    best_path: &Option<(Vec<SwapAmountInRoute>, u128)>) -> (r: Result<SwapMessage, ContractError>)
    ensures
        ({
            let has_rec = params.recommended_swap_route is Some;
            let rec = if has_rec { recommended_out } else { 0 };
            let best_out: u128 = match best_path { Some(b) => b.1, None => 0 };
            match router {
                None => r matches Ok(m) && is_pool_swap(m, sender@, *params),
                Some(addr) => if params.force_swap_route {
                    if has_rec {
                        r matches Ok(m) && is_router_swap(m, addr@, params.recommended_swap_route->Some_0@, *params)
                    } else {
                        r == Err::<SwapMessage, ContractError>(ContractError::TryForceRouteWithoutRecommendedSwapRoute)
                    }
                } else if best_out == 0 && rec == 0 {
                    r matches Ok(m) && is_pool_swap(m, sender@, *params)
                } else if best_out >= rec {
                    r matches Ok(m) && is_router_swap(m, addr@, best_path->Some_0.0@, *params)
                } else {
                    r matches Ok(m) && is_router_swap(m, addr@, params.recommended_swap_route->Some_0@, *params)
                },
            }
        }),
{
    let has_recommended = params.recommended_swap_route.is_some();
    let best_out: u128 = match best_path { Some(b) => b.1, None => 0 };
    let route = select_swap_route(router.is_some(), params.force_swap_route, has_recommended, recommended_out, best_out);
    match route {
        Err(e) => Err(e),
        Ok(SwapRoute::Pool) => Ok(pool_swap_message(sender, params)),
        Ok(SwapRoute::RecommendedPath) => match (router, &params.recommended_swap_route) {
            (Some(addr), Some(path)) => Ok(router_swap_message(addr, path, params)),
            _ => Err(ContractError::MissingRecommendedSwapRoute),
        },
        Ok(SwapRoute::BestPath) => match (router, best_path) {
            (Some(addr), Some(b)) => Ok(router_swap_message(addr, &b.0, params)),
            _ => Err(ContractError::MissingRecommendedSwapRoute),
        },
    }
}

} // verus!
