use quasar_vaults::cl_vault::coinlist::OsmoCoin;
use quasar_vaults::cl_vault::query::{query_assets_from_shares, query_total_assets, TotalAssetsResponse};
use quasar_vaults::coin::coin;

fn osmo(denom: &str, amount: &str) -> Option<OsmoCoin> {
    Some(OsmoCoin { denom: denom.to_string(), amount: amount.to_string() })
}

#[test]
fn total_assets_adds_positions_and_free_balances() {
    let positions = vec![
        (osmo("token0", "100"), osmo("token1", "7")),
        (None, osmo("token1", "3")),
        (osmo("token0", "+5"), None),
    ];
    let total = query_total_assets(&positions, coin(1, "token0"), coin(2, "token1"));
    assert_eq!(total.token0, coin(106, "token0"));
    assert_eq!(total.token1, coin(12, "token1"));
    let empty = query_total_assets(&vec![], coin(0, "token0"), coin(9, "token1"));
    assert_eq!(empty, TotalAssetsResponse { token0: coin(0, "token0"), token1: coin(9, "token1") });
}

#[test]
fn assets_from_shares_scale_and_sort() {
    let total = TotalAssetsResponse { token0: coin(1000, "uosmo"), token1: coin(10, "uatom") };
    assert_eq!(query_assets_from_shares(&total, 1, 4), vec![coin(2, "uatom"), coin(250, "uosmo")]);
    assert_eq!(query_assets_from_shares(&total, 1, 1000), vec![coin(1, "uosmo")]);
    assert_eq!(query_assets_from_shares(&total, 0, 1000), vec![]);
}
