//! Unsigned integers and fixed-point decimals with the semantics of the
//! CosmWasm math types, modelled on plain machine integers.

pub mod decimal;
pub mod keys;
pub mod uint;
