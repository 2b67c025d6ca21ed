use vstd::prelude::*;
use crate::cl_vault::error::{ContractError, StdError};

verus! {

/// Who administers the vault, and to whom a transfer of that role is
/// offered, if anyone.
#[derive(Debug, Clone, PartialEq, Eq)]
pub struct AdminState {
    pub admin: Option<String>,
    pub pending: Option<String>,
}

/// `sender` is the vault's admin.
pub open spec fn is_admin(state: AdminState, sender: Seq<char>) -> bool {
    state.admin matches Some(a) && a@ == sender
}

/// The error of a transfer accepted when none is offered.
pub open spec fn is_no_transfer(e: ContractError) -> bool {
    e matches ContractError::Std(StdError::NotFound { kind }) && kind@ == "cosmwasm_std::addresses::Addr"@
}

fn check_admin(state: &AdminState, sender: &String) -> (r: Result<(), ContractError>)
    ensures
        r == if is_admin(*state, sender@) { Ok::<(), ContractError>(()) } else { Err(ContractError::NotAdmin) },
{
    match &state.admin {
        Some(a) => if *a == *sender { Ok(()) } else { Err(ContractError::NotAdmin) },
        None => Err(ContractError::NotAdmin),
    }
}

/// What an offer of the role by `sender` to `new_admin` leads to.
pub open spec fn update_admin_outcome(state: AdminState, sender: Seq<char>, new_admin: String) -> Result<AdminState, ContractError> {
    if is_admin(state, sender) {
        Ok(AdminState { admin: state.admin, pending: Some(new_admin) })
    } else {
        Err(ContractError::NotAdmin)
    }
}

/// What an acceptance of the role by `sender` leads to, for a state with an
/// offer (without one, the load of the offer fails).
pub open spec fn accept_outcome(state: AdminState, sender: Seq<char>) -> Result<AdminState, ContractError>
    recommends
        state.pending is Some,
{
    let p = state.pending->Some_0;
    if p@ == sender {
        Ok(AdminState { admin: Some(p), pending: None })
    } else {
        Err(ContractError::Unauthorized)
    }
}

/// What a withdrawal of the offer by `sender` leads to.
pub open spec fn drop_transfer_outcome(state: AdminState, sender: Seq<char>) -> Result<AdminState, ContractError> {
    if is_admin(state, sender) {
        Ok(AdminState { admin: state.admin, pending: None })
    } else {
        Err(ContractError::NotAdmin)
    }
}

/// The admin offers the role to `new_admin`; the offer replaces any earlier
/// one. Anyone else is refused.
pub fn execute_update_admin(state: AdminState, sender: &String, new_admin: String) -> (r: Result<AdminState, ContractError>)
    ensures
        r == update_admin_outcome(state, sender@, new_admin),
{
    match check_admin(&state, sender) {
        Ok(()) => Ok(AdminState { admin: state.admin, pending: Some(new_admin) }),
        Err(e) => Err(e),
    }
}

/// The address offered the role takes it, and the offer ends; with no offer,
/// or from anyone else, it is refused.
pub fn execute_accept_admin_transfer(state: AdminState, sender: &String) -> (r: Result<AdminState, ContractError>)
    ensures
        state.pending is None ==> r is Err && is_no_transfer(r->Err_0),
        state.pending is Some ==> r == accept_outcome(state, sender@),
{
    match state.pending {
        None => Err(ContractError::Std(StdError::NotFound { kind: "cosmwasm_std::addresses::Addr".to_string() })),
        Some(p) => if p == *sender {
            Ok(AdminState { admin: Some(p), pending: None })
        } else {
            Err(ContractError::Unauthorized)
        },
    }
}

/// The admin withdraws any offer of the role. Anyone else is refused.
pub fn execute_drop_admin_transfer(state: AdminState, sender: &String) -> (r: Result<AdminState, ContractError>)
    ensures
        r == drop_transfer_outcome(state, sender@),
{
    match check_admin(&state, sender) {
        Ok(()) => Ok(AdminState { admin: state.admin, pending: None }),
        Err(e) => Err(e),
    }
}

/// The role changes hands only as offered: an accepted transfer makes the
/// offered address the admin and ends the offer, and nobody else can accept;
/// an offer by the admin, accepted by its address, hands the role over; a
/// withdrawn offer can no longer be accepted.
pub proof fn law_admin_changes_only_by_offer(state: AdminState, admin: Seq<char>, sender: Seq<char>, new_admin: String)
    ensures
        state.pending is Some && accept_outcome(state, sender) is Ok ==> {
            &&& state.pending->Some_0@ == sender
            &&& accept_outcome(state, sender)->Ok_0.admin == state.pending
            &&& accept_outcome(state, sender)->Ok_0.pending is None
        },
        is_admin(state, admin) ==> {
            let offered = update_admin_outcome(state, admin, new_admin)->Ok_0;
            &&& accept_outcome(offered, new_admin@) == Ok::<AdminState, ContractError>(AdminState { admin: Some(new_admin), pending: None })
            &&& drop_transfer_outcome(offered, admin)->Ok_0.pending is None
        },
{
}

} // verus!
