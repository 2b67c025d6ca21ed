//! Logic of the airdrop contract: its configuration rules, the table of
//! users and what they may claim.

pub mod error;
pub mod helpers;
pub mod state;
pub mod users;
