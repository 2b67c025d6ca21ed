//! Logic of the basic vault, which spreads deposits over primitives.

pub mod bond;
pub mod callback;
pub mod error;
pub mod execute;
pub mod msg;
pub mod state;
