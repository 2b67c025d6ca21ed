use vstd::prelude::*;
use crate::cl_vault::error::StdError;
use crate::math::uint::{CheckedFromRatioError, OverflowError};

verus! {

/// A payment that is not what the message asks for.
#[derive(Debug, Clone, PartialEq, Eq)]
pub enum PaymentError {
    MissingDenom(String),
    NoFunds,
    MultipleDenoms,
    NonPayable,
}

/// Errors of the basic vault.
#[derive(Debug, Clone, PartialEq, Eq)]
pub enum ContractError {
    Std(StdError),
    Unauthorized,
    NotInValidatorSet { validator: String },
    DifferentBondDenom { denom1: String, denom2: String },
    BondedMismatch { stored: u128, queried: u128 },
    IncorrectBondingRatio,
    EmptyBalance { denom: String },
    UnbondTooSmall { min_bonded: u128 },
    NoFunds,
    BalanceTooSmall,
    NothingToClaim,
    CannotSetOwnAccount,
    InvalidExpiration,
    InvalidZeroAmount,
    Expired,
    NoAllowance,
    CannotExceedCap,
    OverCap,
    DuplicateInitialBalanceAddresses,
    IncorrectCallbackId { expected: String, ids: Vec<String> },
    OverflowError(OverflowError),
    MultiplyRatioError(CheckedFromRatioError),
    Payment(PaymentError),
    MissingBondResponse,
    DuplicateBondResponse { bond_id: String },
    NoPendingUnbonds,
    TokenWeightsIsEMpty,
    CoinsVectorIsEmpty,
    DenomNotFoundInCoinsVector,
    UserDoNotHavePendingUnbonds,
    BondResponseIsEmpty,
    UnbondIsEmpty,
    UnbondStubIsEmpty,
    CoinsWeightVectorIsEmpty,
}

} // verus!
