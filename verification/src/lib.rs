//! Verified core of the Quasar vault contracts: fixed-point arithmetic,
//! concentrated-liquidity tick and liquidity math, coin lists, vault share
//! bookkeeping, burn totals and airdrop administration rules.

pub mod airdrop;
pub mod basic_vault;
pub mod burn;
pub mod coin;
pub mod cl_vault;
pub mod math;
pub mod text;
