use quasar_vaults::cl_vault::swap::{swap_msg, SwapMessage};
use quasar_vaults::cl_vault::error::{ContractError, StdError};
use quasar_vaults::cl_vault::state::PoolConfig;
use quasar_vaults::cl_vault::swap::{
    estimate_swap_request, estimated_swap_output, select_swap_route, swap, SwapRoute,
};
use quasar_vaults::coin::coin;

fn mock_pool_config() -> PoolConfig {
    PoolConfig { pool_id: 1, token0: "token0".to_string(), token1: "token1".to_string() }
}

const CONTRACT: &str = "cosmos2contract";

#[test]
fn test_proper_swap() {
    let token_in_amount = 100u128;
    let token_in_denom = "token0".to_string();
    let token_out_min_amount = 100u128;
    let msg_swap = swap(
        &mock_pool_config(),
        &CONTRACT.to_string(),
        1000,
        token_in_amount,
        &token_in_denom,
        token_out_min_amount,
    )
    .unwrap();
    assert!(msg_swap.sender == CONTRACT);
    assert!(msg_swap.routes.len() == 1);
    assert!(msg_swap.routes[0].pool_id == 1);
    assert!(msg_swap.routes[0].token_out_denom == *"token1");
    assert!(msg_swap.token_in.denom == *"token0");
    assert!(msg_swap.token_in.amount == *"100");
    assert!(msg_swap.token_out_min_amount == *"100");
}

#[test]
fn test_bad_denom_swap() {
    let err = swap(&mock_pool_config(), &CONTRACT.to_string(), 1000, 100, &"token3".to_string(), 100)
        .unwrap_err();
    assert_eq!(
        err,
        ContractError::BadTokenForSwap { base_token: "token0".to_string(), quote_token: "token1".to_string() }
    );
}

#[test]
fn swap_needs_the_balance() {
    let err = swap(&mock_pool_config(), &CONTRACT.to_string(), 99, 100, &"token1".to_string(), 0)
        .unwrap_err();
    assert_eq!(err, ContractError::InsufficientFundsForSwap { balance: 99, needed: 100 });
    let ok = swap(&mock_pool_config(), &CONTRACT.to_string(), 100, 100, &"token1".to_string(), 7).unwrap();
    assert_eq!(ok.routes[0].token_out_denom, "token0");
    assert_eq!(ok.token_out_min_amount, "7");
}

#[test]
fn estimate_request_and_output() {
    let q = estimate_swap_request(&mock_pool_config(), 250, &"token1".to_string()).unwrap();
    assert_eq!(q.pool_id, 1);
    assert_eq!(q.token_in, "250token1");
    assert_eq!(q.routes.len(), 1);
    assert_eq!(q.routes[0].token_out_denom, "token0");
    assert!(estimate_swap_request(&mock_pool_config(), 250, &"x".to_string()).is_err());

    assert_eq!(estimated_swap_output(&"token0".to_string(), &"1234".to_string()), Ok(coin(1234, "token0")));
    assert_eq!(
        estimated_swap_output(&"token0".to_string(), &"12a".to_string()),
        Err(ContractError::Std(StdError::GenericErr {
            msg: "Parsing u128: invalid digit found in string".to_string()
        }))
    );
}

#[test]
fn route_selection() {
    assert_eq!(select_swap_route(false, true, true, 5, 9), Ok(SwapRoute::Pool));
    assert_eq!(select_swap_route(true, true, true, 0, 9), Ok(SwapRoute::RecommendedPath));
    assert_eq!(
        select_swap_route(true, true, false, 0, 9),
        Err(ContractError::TryForceRouteWithoutRecommendedSwapRoute)
    );
    assert_eq!(select_swap_route(true, false, false, 7, 0), Ok(SwapRoute::Pool));
    assert_eq!(select_swap_route(true, false, true, 5, 5), Ok(SwapRoute::BestPath));
    assert_eq!(select_swap_route(true, false, true, 6, 5), Ok(SwapRoute::RecommendedPath));
}

fn swap_params(recommended: Option<Vec<quasar_vaults::cl_vault::swap::SwapAmountInRoute>>, force: bool) -> quasar_vaults::cl_vault::swap::SwapParams {
    quasar_vaults::cl_vault::swap::SwapParams {
        token_in_amount: 100,
        token_out_min_amount: 90,
        token_in_denom: "token0".to_string(),
        token_out_denom: "token1".to_string(),
        recommended_swap_route: recommended,
        force_swap_route: force,
        pool_id: 1,
    }
}

fn hop(pool_id: u64, denom: &str) -> quasar_vaults::cl_vault::swap::SwapAmountInRoute {
    quasar_vaults::cl_vault::swap::SwapAmountInRoute { pool_id, token_out_denom: denom.to_string() }
}

#[test]
fn swap_msg_without_router_swaps_over_the_pool() {
    let m = swap_msg(&CONTRACT.to_string(), &None, &swap_params(None, false), 0, &None).unwrap();
    match m {
        SwapMessage::Pool(msg) => {
            assert_eq!(msg.sender, CONTRACT);
            assert_eq!(msg.routes, vec![hop(1, "token1")]);
            assert_eq!(msg.token_in.denom, "token0");
            assert_eq!(msg.token_in.amount, "100");
            assert_eq!(msg.token_out_min_amount, "90");
        }
        _ => panic!("expected a pool swap"),
    }
}

#[test]
fn swap_msg_with_router_takes_the_better_path() {
    let router = Some("router".to_string());
    let rec = vec![hop(3, "x"), hop(4, "token1")];
    let best = Some((vec![hop(5, "token1")], 50u128));
    match swap_msg(&CONTRACT.to_string(), &router, &swap_params(Some(rec.clone()), false), 60, &best).unwrap() {
        SwapMessage::Router(r) => {
            assert_eq!(r.router, "router");
            assert_eq!(r.path, rec);
            assert_eq!(r.out_denom, "token1");
            assert_eq!(r.minimum_receive, 90);
            assert_eq!(r.funds, coin(100, "token0"));
        }
        _ => panic!("expected a router swap"),
    }
    match swap_msg(&CONTRACT.to_string(), &router, &swap_params(Some(rec.clone()), false), 40, &best).unwrap() {
        SwapMessage::Router(r) => assert_eq!(r.path, vec![hop(5, "token1")]),
        _ => panic!("expected a router swap"),
    }
    assert!(matches!(
        swap_msg(&CONTRACT.to_string(), &router, &swap_params(None, false), 0, &None).unwrap(),
        SwapMessage::Pool(_)
    ));
    assert_eq!(
        swap_msg(&CONTRACT.to_string(), &router, &swap_params(None, true), 0, &best),
        Err(ContractError::TryForceRouteWithoutRecommendedSwapRoute)
    );
    match swap_msg(&CONTRACT.to_string(), &router, &swap_params(Some(rec.clone()), true), 1, &best).unwrap() {
        SwapMessage::Router(r) => assert_eq!(r.path, rec),
        _ => panic!("expected a router swap"),
    }
}
