use quasar_vaults::basic_vault::error::ContractError as BasicError;
use quasar_vaults::basic_vault::state::{is_contract_admin, update_cap, Cap};
use quasar_vaults::cl_vault::admin::{
    execute_accept_admin_transfer, execute_drop_admin_transfer, execute_update_admin, AdminState,
};
use quasar_vaults::cl_vault::error::{ContractError, StdError};

fn state() -> AdminState {
    AdminState { admin: Some("admin".to_string()), pending: None }
}

#[test]
fn admin_transfer_flow() {
    let offered = execute_update_admin(state(), &"admin".to_string(), "next".to_string()).unwrap();
    assert_eq!(offered.pending, Some("next".to_string()));
    assert_eq!(
        execute_accept_admin_transfer(offered.clone(), &"other".to_string()),
        Err(ContractError::Unauthorized)
    );
    let accepted = execute_accept_admin_transfer(offered.clone(), &"next".to_string()).unwrap();
    assert_eq!(accepted, AdminState { admin: Some("next".to_string()), pending: None });
    let dropped = execute_drop_admin_transfer(offered, &"admin".to_string()).unwrap();
    assert_eq!(dropped.pending, None);
    assert_eq!(
        execute_accept_admin_transfer(dropped, &"next".to_string()),
        Err(ContractError::Std(StdError::NotFound { kind: "cosmwasm_std::addresses::Addr".to_string() }))
    );
}

#[test]
fn only_the_admin_offers_or_drops() {
    assert_eq!(
        execute_update_admin(state(), &"someone".to_string(), "x".to_string()),
        Err(ContractError::NotAdmin)
    );
    assert_eq!(execute_drop_admin_transfer(state(), &"someone".to_string()), Err(ContractError::NotAdmin));
    let no_admin = AdminState { admin: None, pending: None };
    assert_eq!(execute_update_admin(no_admin, &"admin".to_string(), "x".to_string()), Err(ContractError::NotAdmin));
}

const TEST_ADMIN: &str = "admin";

#[test]
fn test_proper_update_cap() {
    let cap = Cap::new(TEST_ADMIN.to_string(), 100);
    assert_eq!(is_contract_admin(&Some(TEST_ADMIN.to_string()), &TEST_ADMIN.to_string()), Ok(()));

    let (cap, attributes) = update_cap(cap, Some(1000), None);
    assert_eq!(attributes.len(), 3);
    assert_eq!(attributes[0], ("action".to_string(), "update_cap".to_string()));
    assert_eq!(attributes[1], ("new_total".to_string(), 1000u128.to_string()));

    // update again
    let (cap, attributes) = update_cap(cap, Some(5000), None);
    assert_eq!(attributes.len(), 3);
    assert_eq!(attributes[0], ("action".to_string(), "update_cap".to_string()));
    assert_eq!(attributes[1], ("new_total".to_string(), 5000u128.to_string()));

    // clear cap
    let (cap, attributes) = update_cap(cap, None, None);
    assert_eq!(attributes.len(), 2);
    assert_eq!(attributes[0], ("action".to_string(), "update_cap".to_string()));
    assert_eq!(cap.total(), 5000);
}

#[test]
fn test_unauthorized_update_cap() {
    let res = is_contract_admin(&Some(TEST_ADMIN.to_string()), &"not_admin".to_string());
    assert!(res.is_err());
    assert_eq!(res.unwrap_err(), BasicError::Unauthorized);
    assert_eq!(is_contract_admin(&None, &TEST_ADMIN.to_string()), Err(BasicError::Unauthorized));
}

#[test]
fn cap_updates() {
    let cap = Cap::new("admin".to_string(), 100).update_current(40).unwrap();
    let (c, attrs) = update_cap(cap.clone(), Some(500), Some("boss".to_string()));
    assert_eq!(c.total(), 500);
    assert_eq!(c.current(), 40);
    assert_eq!(c.cap_admin(), "boss");
    assert_eq!(
        attrs,
        vec![
            ("action".to_string(), "update_cap".to_string()),
            ("new_total".to_string(), "500".to_string()),
            ("new_cap_admin".to_string(), "boss".to_string()),
            ("success".to_string(), "true".to_string()),
        ]
    );
    let (same, only_fixed) = update_cap(cap, None, None);
    assert_eq!(same.total(), 100);
    assert_eq!(only_fixed.len(), 2);
}
