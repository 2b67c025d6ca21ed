use vstd::prelude::*;
use crate::math::decimal::Decimal256;
use crate::math::uint::{
    CheckedFromRatioError, CheckedMultiplyRatioError, ConversionOverflowError, DivideByZeroError,
    OverflowError,
};

verus! {

/// A generic failure, as CosmWasm's standard error reports it.
#[derive(Debug, Clone, PartialEq, Eq)]
pub enum StdError {
    GenericErr { msg: String },
    NotFound { kind: String },
    ParseErr { target_type: String, msg: String },
}

/// Errors of the concentrated-liquidity vault.
#[derive(Debug, Clone, PartialEq, Eq)]
pub enum ContractError {
    Std(StdError),
    Unauthorized,
    PositionNotFound,
    DivideByZeroError(DivideByZeroError),
    CheckedMultiplyRatioError(CheckedMultiplyRatioError),
    Overflow,
    OverflowError(OverflowError),
    ConversionOverflowError(ConversionOverflowError),
    MultiplyRatioError(CheckedFromRatioError),
    NonPayable,
    IncorrectAmountFunds,
    BadTokenForSwap { base_token: String, quote_token: String },
    InsufficientFundsForSwap { balance: u128, needed: u128 },
    InvalidRatioOfSwappableFundsToUse,
    TickIndexMinError,
    TickIndexMaxError,
    PriceBoundError { price: Decimal256 },
    TickNotFound { tick: i64 },
    CannotHandleNegativePowersInUint,
    MigrationStatusOpen,
    DifferentTicksInMerge,
    TryForceRouteWithoutRecommendedSwapRoute,
    MissingRecommendedSwapRoute,
    PoolNotFound { pool_id: u64 },
    MigrationStatusClosed,
    EmptyCompoundAssetList,
    InvalidDexRouterAddress,
    InvalidSwapAssets,
    InsufficientFunds,
    NotAdmin,
}

/// `e` is a generic error with the message `msg`.
pub open spec fn is_generic_err(e: ContractError, msg: Seq<char>) -> bool {
    e matches ContractError::Std(StdError::GenericErr { msg: m }) && m@ == msg
}

} // verus!
