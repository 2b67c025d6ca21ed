use vstd::prelude::*;

verus! {

/// Merges the listed positions into one; `main_position` says whether the
/// result becomes the vault's main position.
#[derive(Debug, Clone, PartialEq, Eq)]
pub struct MergePositionMsg {
    pub position_ids: Vec<u64>,
    pub main_position: bool,
}

/// Queries on a user's balances.
#[derive(Debug, Clone, PartialEq, Eq)]
pub enum UserBalanceQueryMsg {
    UserSharesBalance { user: String },
    UserAssetsBalance { user: String },
}

/// Queries on the concentrated-liquidity side of the vault.
#[derive(Debug, Clone, Copy, PartialEq, Eq, Structural)]
pub enum ClQueryMsg {
    /// the underlying pool of the vault
    Pool,
    Positions,
    RangeAdmin,
    VerifyTickCache,
}

/// The vault's extension queries.
#[derive(Debug, Clone, PartialEq, Eq)]
pub enum ExtensionQueryMsg {
    /// metadata surrounding the vault
    Metadata,
    /// queries on a user's balances
    Balances(UserBalanceQueryMsg),
    /// queries on the concentrated-liquidity position
    ConcentratedLiquidity(ClQueryMsg),
    /// the address of the dex router
    DexRouter,
}

} // verus!
