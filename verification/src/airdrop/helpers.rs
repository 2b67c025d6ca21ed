use vstd::prelude::*;
use crate::airdrop::error::{is_generic, AirdropErrors};
use crate::airdrop::state::AirdropConfig;
use crate::cl_vault::error::StdError;
use crate::text::{concat, decimal_text, u128_text};

verus! {

/// Refuses a total of user amounts above the airdrop amount.
pub fn check_amounts_and_airdrop_size(total_in_user_info: u128, current_airdrop_amount: u128)
    -> (r: Result<(), AirdropErrors>)
    ensures
        total_in_user_info <= current_airdrop_amount ==> r is Ok,
        total_in_user_info > current_airdrop_amount ==> r is Err && is_generic(r->Err_0,
            "Total amount in the given user amounts "@ + decimal_text(total_in_user_info as nat)
                + " is greater than "@ + decimal_text(current_airdrop_amount as nat)),
{
    if total_in_user_info > current_airdrop_amount {
        let a = concat("Total amount in the given user amounts ", u128_text(total_in_user_info).as_str());
        let b = concat(a.as_str(), " is greater than ");
        let msg = concat(b.as_str(), u128_text(current_airdrop_amount).as_str());
        return Err(AirdropErrors::Std(StdError::GenericErr { msg }));
    }
    Ok(())
}

/// Refuses a zero amount, naming its place in the list.
pub fn validate_amount(amount: u128, index: usize) -> (r: Result<(), AirdropErrors>)
    ensures
        amount != 0 ==> r is Ok,
        amount == 0 ==> r is Err && is_generic(r->Err_0,
            "Amount at index :"@ + decimal_text(index as nat) + "is zero"@),
{
    if amount == 0 {
        let a = concat("Amount at index :", u128_text(index as u128).as_str());
        let msg = concat(a.as_str(), "is zero");
        return Err(AirdropErrors::Std(StdError::GenericErr { msg }));
    }
    Ok(())
}

/// The message of the first check that a new airdrop configuration fails,
/// if any: nothing claimed yet; unless both heights are zero, a start after
/// the current height and before the end; an amount covering what the users
/// are owed; a contract balance covering the amount.
pub open spec fn config_check_failure(config: AirdropConfig, total_in_user_info: u128, height: u64, balance: u128)
    -> Option<Seq<char>>
{
    if config.total_claimed != 0 {
        Some("Failed as total claimed is non zero"@)
    } else if config.start_height == 0 && config.end_height == 0 {
        None
    } else if !(height < config.start_height && config.start_height < config.end_height) {
        Some("Failed as the heights given do not satisfy the conditions"@)
    } else if config.airdrop_amount < total_in_user_info {
        Some("Failed due to config has less amount than the amount allowed to the users to claim"@)
    } else if balance < config.airdrop_amount {
        Some("Failed due to insufficient balance in the contract account. Balance : "@ + decimal_text(balance as nat))
    } else {
        None
    }
}

/// A configuration that passes the checks has nothing claimed, and, where it
/// sets a window, opens after the current height and closes after it opens,
/// covers what the users may claim, and is covered by the contract's balance.
pub proof fn law_accepted_config_is_sound(config: AirdropConfig, total_in_user_info: u128, height: u64, balance: u128)
    ensures
        config_check_failure(config, total_in_user_info, height, balance) is None ==> {
            &&& config.total_claimed == 0
            &&& (config.start_height != 0 || config.end_height != 0) ==> {
                &&& height < config.start_height
                &&& config.start_height < config.end_height
                &&& total_in_user_info <= config.airdrop_amount
                &&& config.airdrop_amount <= balance
            }
        },
        config.end_height <= config.start_height && (config.start_height != 0 || config.end_height != 0)
            ==> config_check_failure(config, total_in_user_info, height, balance) is Some,
{
}

/// Checks a new airdrop configuration before it replaces the current one:
/// nothing may be claimed yet; a configuration with a window must open after
/// the current height, close after it opens, cover what the users may claim
/// (`total_in_user_info`), and be funded by the contract's `balance`.
pub fn validate_update_config(config: &AirdropConfig, total_in_user_info: u128, height: u64, balance: u128)
    -> (r: Result<(), AirdropErrors>)
    ensures
        match config_check_failure(*config, total_in_user_info, height, balance) {
            None => r is Ok,
            Some(msg) => r is Err && is_generic(r->Err_0, msg),
        },
        r is Ok ==> config.total_claimed == 0,
        r is Ok && (config.start_height != 0 || config.end_height != 0) ==> {
            &&& height < config.start_height
            &&& config.start_height < config.end_height
            &&& total_in_user_info <= config.airdrop_amount
            &&& config.airdrop_amount <= balance
        },
{
    proof { law_accepted_config_is_sound(*config, total_in_user_info, height, balance); }
    if config.total_claimed == 0 {
        if config.start_height != 0 || config.end_height != 0 {
            if height < config.start_height && config.start_height < config.end_height {
                if config.airdrop_amount >= total_in_user_info {
                    if balance < config.airdrop_amount {
                        let msg = concat("Failed due to insufficient balance in the contract account. Balance : ",
                            u128_text(balance).as_str());
                        return Err(AirdropErrors::Std(StdError::GenericErr { msg }));
                    }
                } else {
                    return Err(AirdropErrors::Std(StdError::GenericErr {
                        msg: "Failed due to config has less amount than the amount allowed to the users to claim".to_string(),
                    }));
                }
            } else {
                return Err(AirdropErrors::Std(StdError::GenericErr {
                    msg: "Failed as the heights given do not satisfy the conditions".to_string(),
                }));
            }
        }
    } else {
        return Err(AirdropErrors::Std(StdError::GenericErr {
            msg: "Failed as total claimed is non zero".to_string(),
        }));
    }
    Ok(())
}

/// The id of the next reply: one after the largest stored id, or zero.
pub fn next_reply_id(last: Option<u64>) -> (r: u64)
    requires
        last matches Some(l) ==> l < u64::MAX,
    ensures
        r == match last { Some(l) => l + 1, None => 0 },
{
    match last {
        Some(l) => l + 1,
        None => 0,
    }
}

} // verus!
