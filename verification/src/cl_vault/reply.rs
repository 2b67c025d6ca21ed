use vstd::prelude::*;

verus! {

/// The identifiers of the vault's submessage replies. Each has a number,
/// counted from 1 in the order below; every other number is `Unknown`.
#[derive(Debug, Clone, Copy, PartialEq, Eq, Structural)]
pub enum Replies {
    /// create the initial position while instantiating the contract
    InstantiateCreatePosition,
    /// collect incentives, the first step of reward handling
    CollectIncentives,
    /// collect spread rewards, then divide them over share holders
    CollectSpreadRewards,
    WithdrawPosition,
    /// create a position in the first step of modifying the range
    RangeInitialCreatePosition,
    /// create a position in an iteration step of modifying the range
    RangeIterationCreatePosition,
    Swap,
    /// merge positions
    Merge,
    /// pay out a user once liquidity has left the position
    WithdrawUser,
    /// register the denom created at instantiation
    CreateDenom,
    /// withdraw a position that is being merged
    WithdrawMerge,
    /// create the single position of a merge
    CreatePositionMerge,
    /// the final swap of an auto-compound
    Autocompound,
    /// the swap of a deposit of any ratio
    AnyDepositSwap,
    Unknown,
}

/// The number of each reply identifier.
pub open spec fn reply_number(r: Replies) -> u64 {
    match r {
        Replies::InstantiateCreatePosition => 1,
        Replies::CollectIncentives => 2,
        Replies::CollectSpreadRewards => 3,
        Replies::WithdrawPosition => 4,
        Replies::RangeInitialCreatePosition => 5,
        Replies::RangeIterationCreatePosition => 6,
        Replies::Swap => 7,
        Replies::Merge => 8,
        Replies::WithdrawUser => 9,
        Replies::CreateDenom => 10,
        Replies::WithdrawMerge => 11,
        Replies::CreatePositionMerge => 12,
        Replies::Autocompound => 13,
        Replies::AnyDepositSwap => 14,
        Replies::Unknown => 15,
    }
}

impl Replies {
    /// The reply identifier with number `id`; `Unknown` for any number that
    /// names none.
    pub fn from_u64(id: u64) -> (r: Replies)
        ensures
            1 <= id <= 15 ==> reply_number(r) == id,
            !(1 <= id <= 15) ==> r == Replies::Unknown,
    {
        match id {
            1 => Replies::InstantiateCreatePosition,
            2 => Replies::CollectIncentives,
            3 => Replies::CollectSpreadRewards,
            4 => Replies::WithdrawPosition,
            5 => Replies::RangeInitialCreatePosition,
            6 => Replies::RangeIterationCreatePosition,
            7 => Replies::Swap,
            8 => Replies::Merge,
            9 => Replies::WithdrawUser,
            10 => Replies::CreateDenom,
            11 => Replies::WithdrawMerge,
            12 => Replies::CreatePositionMerge,
            13 => Replies::Autocompound,
            14 => Replies::AnyDepositSwap,
            _ => Replies::Unknown,
        }
    }

    /// The number of this reply identifier.
    pub fn to_u64(self) -> (r: u64)
        ensures
            r == reply_number(self),
    {
        match self {
            Replies::InstantiateCreatePosition => 1,
            Replies::CollectIncentives => 2,
            Replies::CollectSpreadRewards => 3,
            Replies::WithdrawPosition => 4,
            Replies::RangeInitialCreatePosition => 5,
            Replies::RangeIterationCreatePosition => 6,
            Replies::Swap => 7,
            Replies::Merge => 8,
            Replies::WithdrawUser => 9,
            Replies::CreateDenom => 10,
            Replies::WithdrawMerge => 11,
            Replies::CreatePositionMerge => 12,
            Replies::Autocompound => 13,
            Replies::AnyDepositSwap => 14,
            Replies::Unknown => 15,
        }
    }
}

/// Numbering the reply identifiers and reading the number back gives the
/// same identifier.
pub proof fn law_reply_number_roundtrip(r: Replies)
    ensures
        1 <= reply_number(r) <= 15,
        forall|s: Replies| reply_number(s) == reply_number(r) ==> s == r,
{
}

} // verus!
