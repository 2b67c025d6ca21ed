use vstd::prelude::*;
use crate::math::decimal::Decimal256;

verus! {

/// Metadata of the vault, for display.
#[derive(Debug, Clone, PartialEq, Eq)]
pub struct Metadata {
    /// the underlying thesis of the vault's positions, e.g. aggressive
    pub thesis: String,
    /// the name of the vault
    pub name: String,
}

/// Whether the paginated migration to auto-compounding is still running.
#[derive(Debug, Clone, Copy, PartialEq, Eq, Structural)]
pub enum MigrationStatus {
    Open,
    Closed,
}

/// The pool that the vault provides liquidity to, and its two tokens.
#[derive(Debug, Clone, PartialEq, Eq)]
pub struct PoolConfig {
    pub pool_id: u64,
    pub token0: String,
    pub token1: String,
}

impl PoolConfig {
    /// Whether `token` is one of the two tokens of the pool.
    pub fn pool_contains_token(&self, token: &str) -> (r: bool)
        ensures
            r == (token@ == self.token0@ || token@ == self.token1@),
    {
        let t = token.to_string();
        t == self.token0 || t == self.token1
    }
}

/// A position as it was stored before positions carried their join time.
#[derive(Debug, Clone, Copy, PartialEq, Eq, Structural)]
pub struct OldPosition {
    pub position_id: u64,
}

/// A position of the vault; its id is the position's id in the pool.
#[derive(Debug, Clone, Copy, PartialEq, Eq, Structural)]
pub struct Position {
    pub position_id: u64,
    /// block time at creation, or as the pool reported it
    pub join_time: u64,
    /// the time after which the position can be claimed without forfeiting incentives
    pub claim_after: Option<u64>,
}

/// The range of the position that a running merge creates.
#[derive(Debug, Clone, Copy, PartialEq, Eq, Structural)]
pub struct CurrentMergePosition {
    pub lower_tick: i64,
    pub upper_tick: i64,
    pub claim_after_secs: Option<u64>,
}

/// The phase of reward handling.
#[derive(Debug, Clone, Copy, PartialEq, Eq, Structural)]
pub enum RewardsStatus {
    Ready,
    Collecting,
    Distributing,
}

/// What a swap-then-deposit step merges into once it is done.
#[derive(Debug, Clone, PartialEq, Eq)]
pub struct SwapDepositMergeState {
    pub target_lower_tick: i64,
    pub target_upper_tick: i64,
    pub target_range_position_ids: Vec<u64>,
}

/// One power of ten of the price range: the price at `initial_tick` is
/// `initial_price`, each following tick adds `additive_increment_per_tick`,
/// up to `max_price`.
#[derive(Debug, Clone, Copy, PartialEq, Eq, Structural)]
pub struct TickExpIndexData {
    pub initial_price: Decimal256,
    pub max_price: Decimal256,
    pub additive_increment_per_tick: Decimal256,
    pub initial_tick: i64,
}

} // verus!
