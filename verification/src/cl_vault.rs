//! Logic of the concentrated-liquidity vault.

pub mod admin;
pub mod allocation;
pub mod autocompound;
pub mod error;
pub mod coinlist;
pub mod concentrated_liquidity;
pub mod helpers;
pub mod instantiate;
pub mod liquidity;
pub mod merge;
pub mod migrate;
pub mod msg;
pub mod query;
pub mod range_management;
pub mod reply;
pub mod rewards;
pub mod state;
pub mod swap;
pub mod tick;
