use vstd::prelude::*;
use crate::cl_vault::error::StdError;

verus! {

/// Errors of the airdrop contract.
#[derive(Debug, Clone, PartialEq, Eq)]
pub enum AirdropErrors {
    Std(StdError),
    Unauthorized,
    InvalidAirdropWindow,
    InvalidChangeInConfig,
    InvalidChangeUserInfo,
    InvalidWithdraw,
    InvalidClaim,
    AlreadyClaimed,
    AlreadyExists { user: String },
    InvalidChangeInAirdropConfig,
    InsufficientFundsInContractAccount { balance: u128 },
    UserAmountIsGreaterThanTotal { total_in_user_info: u128, current_airdrop_amount: u128 },
    ConfigAmountLessThanTotalClaimable,
    NonZeroClaimedAmount,
    UnequalLengths,
    ZeroAmount { address: String },
}

/// `e` is a generic error with the message `msg`.
pub open spec fn is_generic(e: AirdropErrors, msg: Seq<char>) -> bool {
    e matches AirdropErrors::Std(StdError::GenericErr { msg: m }) && m@ == msg
}

} // verus!
