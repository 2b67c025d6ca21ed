use vstd::prelude::*;
use crate::airdrop::error::{is_generic, AirdropErrors};
use crate::airdrop::helpers::{check_amounts_and_airdrop_size, config_check_failure, validate_amount, validate_update_config};
use crate::airdrop::state::{unclaimed_part, AirdropConfig, UserInfo, UserTable};
use crate::cl_vault::error::StdError;
use crate::text::decimal_text;

verus! {

/// Why a change of the users stops.
pub enum UserChangeError {
    /// the amount at this place of the list is zero
    ZeroAmount(int),
    /// this user already has an allocation or claimed
    AlreadyExists(String),
    /// this user is not in the table
    NotFound,
}

/// The users' map and the amount they may still claim.
pub type UsersState = (Map<Seq<char>, UserInfo>, int);

/// Adding one user: a zero amount is refused; a user already in the table
/// is refused if they have an allocation or claimed, and otherwise left as is.
pub open spec fn add_step(st: UsersState, user: String, amount: u128, index: int) -> Result<UsersState, UserChangeError> {
    if amount == 0 {
        Err(UserChangeError::ZeroAmount(index))
    } else if st.0.contains_key(user@) {
        if st.0[user@].claimable_amount != 0 || st.0[user@].claimed_flag {
            Err(UserChangeError::AlreadyExists(user))
        } else {
            Ok(st)
        }
    } else {
        Ok((st.0.insert(user@, UserInfo { claimable_amount: amount, claimed_flag: false }), st.1 + amount))
    }
}

/// Adding the first `n` users of the list, in order.
pub open spec fn add_fold(st: UsersState, users: Seq<String>, amounts: Seq<u128>, n: int) -> Result<UsersState, UserChangeError>
    decreases n,
{
    if n <= 0 {
        Ok(st)
    } else {
        match add_fold(st, users, amounts, n - 1) {
            Err(e) => Err(e),
            Ok(s) => add_step(s, users[n - 1], amounts[n - 1], n - 1),
        }
    }
}

/// Setting one user's allocation: a zero amount is refused, as is a user
/// not in the table; a user who claimed is left as is.
pub open spec fn set_step(st: UsersState, user: String, amount: u128, index: int) -> Result<UsersState, UserChangeError> {
    if amount == 0 {
        Err(UserChangeError::ZeroAmount(index))
    } else if !st.0.contains_key(user@) {
        Err(UserChangeError::NotFound)
    } else if st.0[user@].claimed_flag {
        Ok(st)
    } else {
        Ok((st.0.insert(user@, UserInfo { claimable_amount: amount, claimed_flag: false }),
            st.1 + amount - st.0[user@].claimable_amount))
    }
}

/// Setting the allocations of the first `n` users of the list, in order.
pub open spec fn set_fold(st: UsersState, users: Seq<String>, amounts: Seq<u128>, n: int) -> Result<UsersState, UserChangeError>
    decreases n,
{
    if n <= 0 {
        Ok(st)
    } else {
        match set_fold(st, users, amounts, n - 1) {
            Err(e) => Err(e),
            Ok(s) => set_step(s, users[n - 1], amounts[n - 1], n - 1),
        }
    }
}

proof fn lemma_add_fold_err(st: UsersState, users: Seq<String>, amounts: Seq<u128>, i: int, n: int)
    requires
        0 <= i <= n,
        add_fold(st, users, amounts, i) is Err,
    ensures
        add_fold(st, users, amounts, n) == add_fold(st, users, amounts, i),
    decreases n - i,
{
    if i < n {
        lemma_add_fold_err(st, users, amounts, i, n - 1);
    }
}

proof fn lemma_set_fold_err(st: UsersState, users: Seq<String>, amounts: Seq<u128>, i: int, n: int)
    requires
        0 <= i <= n,
        set_fold(st, users, amounts, i) is Err,
    ensures
        set_fold(st, users, amounts, n) == set_fold(st, users, amounts, i),
    decreases n - i,
{
    if i < n {
        lemma_set_fold_err(st, users, amounts, i, n - 1);
    }
}

/// The outcome of a change of the users, against its specification.
pub open spec fn change_outcome(r: Result<UserTable, AirdropErrors>, folded: Result<UsersState, UserChangeError>,
    airdrop_amount: u128, users: Seq<String>) -> bool
{
    match folded {
        Err(UserChangeError::ZeroAmount(i)) => r is Err && is_generic(r->Err_0,
            "Amount at index :"@ + decimal_text(i as nat) + "is zero"@),
        Err(UserChangeError::AlreadyExists(u)) => r == Err::<UserTable, AirdropErrors>(AirdropErrors::AlreadyExists { user: u }),
        Err(UserChangeError::NotFound) => r is Err && is_user_not_found(r->Err_0),
        Ok(st) => if st.1 > airdrop_amount {
            r is Err && is_generic(r->Err_0, "Total amount in the given user amounts "@ + decimal_text(st.1 as nat)
                + " is greater than "@ + decimal_text(airdrop_amount as nat))
        } else {
            r is Ok && r->Ok_0.wf() && r->Ok_0.spec_map() == st.0 && r->Ok_0.spec_unclaimed() == st.1
        },
    }
}

fn not_found() -> (r: AirdropErrors)
    ensures
        is_user_not_found(r),
{
    AirdropErrors::Std(StdError::NotFound { kind: "airdrop::state::UserInfo".to_string() })
}

/// `e` is the error of a user missing from the table.
pub open spec fn is_user_not_found(e: AirdropErrors) -> bool {
    e matches AirdropErrors::Std(StdError::NotFound { kind }) && kind@ == "airdrop::state::UserInfo"@
}

/// Adds users with their allocations, before the airdrop window is set:
/// a zero amount is refused, as is a user who already has an allocation or
/// claimed; in the end the users may not claim more than the airdrop amount.
/// A change refused is no change.
#[verifier::loop_isolation(false)]
pub fn add_users(config: &AirdropConfig, table: UserTable, users: Vec<String>, amounts: Vec<u128>)
    -> (r: Result<UserTable, AirdropErrors>)
    requires
        table.wf(),
        config.start_height == 0 && config.end_height == 0 && users@.len() == amounts@.len() ==>
            (add_fold((table.spec_map(), table.spec_unclaimed()), users@, amounts@, users@.len() as int)
                matches Ok(st) ==> st.1 <= u128::MAX),
    ensures
        if config.start_height != 0 || config.end_height != 0 {
            r == Err::<UserTable, AirdropErrors>(AirdropErrors::InvalidChangeUserInfo)
        } else if users@.len() != amounts@.len() {
            r is Err && is_generic(r->Err_0, "Deposit amount weight for primitive is zero"@)
        } else {
            change_outcome(r, add_fold((table.spec_map(), table.spec_unclaimed()), users@, amounts@, users@.len() as int),
                config.airdrop_amount, users@)
        },
{
    if config.start_height != 0 || config.end_height != 0 {
        return Err(AirdropErrors::InvalidChangeUserInfo);
    }
    if users.len() != amounts.len() {
        return Err(AirdropErrors::Std(StdError::GenericErr { msg: "Deposit amount weight for primitive is zero".to_string() }));
    }
    let ghost st0 = (table.spec_map(), table.spec_unclaimed());
    let mut t = table;
    let mut i: usize = 0;
    while i < users.len()
        invariant
            users@.len() == amounts@.len(),
            i <= users@.len(),
            t.wf(),
            add_fold(st0, users@, amounts@, i as int) == Ok::<UsersState, UserChangeError>((t.spec_map(), t.spec_unclaimed())),
        decreases users@.len() - i,
    {
        let user = &users[i];
        let amount = amounts[i];
        match validate_amount(amount, i) {
            Ok(()) => {},
            Err(e) => {
                proof { lemma_add_fold_err(st0, users@, amounts@, i + 1, users@.len() as int); }
                return Err(e);
            },
        }
        match t.get(user) {
            Some(info) => {
                if info.claimable_amount != 0 || info.claimed_flag {
                    proof { lemma_add_fold_err(st0, users@, amounts@, i + 1, users@.len() as int); }
                    return Err(AirdropErrors::AlreadyExists { user: user.clone() });
                }
            },
            None => {
                t.set(user.clone(), UserInfo { claimable_amount: amount, claimed_flag: false });
            },
        }
        i = i + 1;
    }
    proof {
        assert(amounts@.subrange(0, amounts@.len() as int) =~= amounts@);
    }
    let total = t.total_unclaimed();
    match check_amounts_and_airdrop_size(total, config.airdrop_amount) {
        Ok(()) => Ok(t),
        Err(e) => Err(e),
    }
}

/// Sets the allocations of users already in the table, before the airdrop
/// window is set; users who claimed are left as they are. A zero amount or
/// an unknown user is refused; in the end the users may not claim more than
/// the airdrop amount.
#[verifier::loop_isolation(false)]
pub fn set_users(config: &AirdropConfig, table: UserTable, users: Vec<String>, amounts: Vec<u128>)
    -> (r: Result<UserTable, AirdropErrors>)
    requires
        table.wf(),
        config.start_height == 0 && config.end_height == 0 && users@.len() == amounts@.len() ==>
            (set_fold((table.spec_map(), table.spec_unclaimed()), users@, amounts@, users@.len() as int)
                matches Ok(st) ==> st.1 <= u128::MAX),
    ensures
        if config.start_height != 0 || config.end_height != 0 {
            r == Err::<UserTable, AirdropErrors>(AirdropErrors::InvalidChangeUserInfo)
        } else if users@.len() != amounts@.len() {
            r is Err && is_generic(r->Err_0, "Deposit amount weight for primitive is zero"@)
        } else {
            change_outcome(r, set_fold((table.spec_map(), table.spec_unclaimed()), users@, amounts@, users@.len() as int),
                config.airdrop_amount, users@)
        },
{
    if config.start_height != 0 || config.end_height != 0 {
        return Err(AirdropErrors::InvalidChangeUserInfo);
    }
    if users.len() != amounts.len() {
        return Err(AirdropErrors::Std(StdError::GenericErr { msg: "Deposit amount weight for primitive is zero".to_string() }));
    }
    let ghost st0 = (table.spec_map(), table.spec_unclaimed());
    let mut t = table;
    let mut i: usize = 0;
    while i < users.len()
        invariant
            users@.len() == amounts@.len(),
            i <= users@.len(),
            t.wf(),
            set_fold(st0, users@, amounts@, i as int) == Ok::<UsersState, UserChangeError>((t.spec_map(), t.spec_unclaimed())),
        decreases users@.len() - i,
    {
        let user = &users[i];
        let amount = amounts[i];
        match validate_amount(amount, i) {
            Ok(()) => {},
            Err(e) => {
                proof { lemma_set_fold_err(st0, users@, amounts@, i + 1, users@.len() as int); }
                return Err(e);
            },
        }
        match t.get(user) {
            Some(info) => {
                if !info.claimed_flag {
                    t.set(user.clone(), UserInfo { claimable_amount: amount, claimed_flag: false });
                }
            },
            None => {
                proof { lemma_set_fold_err(st0, users@, amounts@, i + 1, users@.len() as int); }
                return Err(not_found());
            },
        }
        i = i + 1;
    }
    proof {
        assert(amounts@.subrange(0, amounts@.len() as int) =~= amounts@);
    }
    let total = t.total_unclaimed();
    match check_amounts_and_airdrop_size(total, config.airdrop_amount) {
        Ok(()) => Ok(t),
        Err(e) => Err(e),
    }
}

/// Removing one user: one not in the table is refused; one who claimed stays.
pub open spec fn remove_step(st: UsersState, user: String) -> Option<UsersState> {
    if !st.0.contains_key(user@) {
        None
    } else if st.0[user@].claimed_flag {
        Some(st)
    } else {
        Some((st.0.remove(user@), st.1 - unclaimed_part(st.0[user@])))
    }
}

/// Removing the first `n` users of the list, in order.
pub open spec fn remove_fold(st: UsersState, users: Seq<String>, n: int) -> Option<UsersState>
    decreases n,
{
    if n <= 0 {
        Some(st)
    } else {
        match remove_fold(st, users, n - 1) {
            None => None,
            Some(s) => remove_step(s, users[n - 1]),
        }
    }
}

proof fn lemma_remove_fold_none(st: UsersState, users: Seq<String>, i: int, n: int)
    requires
        0 <= i <= n,
        remove_fold(st, users, i) is None,
    ensures
        remove_fold(st, users, n) is None,
    decreases n - i,
{
    if i < n {
        lemma_remove_fold_none(st, users, i, n - 1);
    }
}

/// Removes the listed users who have not claimed, before the airdrop window
/// is set; an unknown user is refused. A change refused is no change.
#[verifier::loop_isolation(false)]
pub fn remove_users(config: &AirdropConfig, table: UserTable, users: Vec<String>) -> (r: Result<UserTable, AirdropErrors>)
    requires
        table.wf(),
    ensures
        if config.start_height != 0 || config.end_height != 0 {
            r == Err::<UserTable, AirdropErrors>(AirdropErrors::InvalidChangeUserInfo)
        } else {
            match remove_fold((table.spec_map(), table.spec_unclaimed()), users@, users@.len() as int) {
                None => r is Err && is_user_not_found(r->Err_0),
                Some(st) => r is Ok && r->Ok_0.wf() && r->Ok_0.spec_map() == st.0 && r->Ok_0.spec_unclaimed() == st.1,
            }
        },
{
    if config.start_height != 0 || config.end_height != 0 {
        return Err(AirdropErrors::InvalidChangeUserInfo);
    }
    let ghost st0 = (table.spec_map(), table.spec_unclaimed());
    let mut t = table;
    let mut i: usize = 0;
    while i < users.len()
        invariant
            i <= users@.len(),
            t.wf(),
            remove_fold(st0, users@, i as int) == Some::<UsersState>((t.spec_map(), t.spec_unclaimed())),
        decreases users@.len() - i,
    {
        let user = &users[i];
        match t.get(user) {
            Some(info) => {
                if !info.claimed_flag {
                    t.remove(user);
                }
            },
            None => {
                proof { lemma_remove_fold_none(st0, users@, i + 1, users@.len() as int); }
                return Err(not_found());
            },
        }
        i = i + 1;
    }
    Ok(t)
}

/// Checks an update of the airdrop configuration: not after the current
/// airdrop ended, and the new configuration must pass its checks.
pub fn update_airdrop_config(current: &AirdropConfig, config: AirdropConfig, height: u64, total_in_user_info: u128,
    balance: u128) -> (r: Result<AirdropConfig, AirdropErrors>)
    ensures
        if current.end_height != 0 && height > current.end_height {
            r is Err && is_generic(r->Err_0, "Failed to execute update as it is post airdrop ending"@)
        } else {
            match config_check_failure(config, total_in_user_info, height, balance) {
                None => r == Ok::<AirdropConfig, AirdropErrors>(config),
                Some(msg) => r is Err && is_generic(r->Err_0, msg),
            }
        },
{
    if current.end_height != 0 && height > current.end_height {
        return Err(AirdropErrors::Std(StdError::GenericErr {
            msg: "Failed to execute update as it is post airdrop ending".to_string(),
        }));
    }
    match validate_update_config(&config, total_in_user_info, height, balance) {
        Ok(()) => Ok(config),
        Err(e) => Err(e),
    }
}

/// Checks the configuration an airdrop starts with: no window set and
/// nothing claimed yet.
pub fn check_instantiate_config(config: &AirdropConfig) -> (r: Result<(), AirdropErrors>)
    ensures
        r == if config.start_height != 0 || config.end_height != 0 || config.total_claimed != 0 {
            Err::<(), AirdropErrors>(AirdropErrors::InvalidAirdropWindow)
        } else {
            Ok(())
        },
{
    if config.start_height != 0 || config.end_height != 0 || config.total_claimed != 0 {
        Err(AirdropErrors::InvalidAirdropWindow)
    } else {
        Ok(())
    }
}

/// Checks a claim by a user at `height`: only within the airdrop window, by
/// a user in the table who has not claimed, and with enough funds in the
/// contract (`balance`).
pub fn check_claim(config: &AirdropConfig, height: u64, user_info: Option<UserInfo>, balance: u128)
    -> (r: Result<(), AirdropErrors>)
    ensures
        if config.start_height == 0 || config.end_height == 0 || height > config.end_height || height < config.start_height {
            r == Err::<(), AirdropErrors>(AirdropErrors::InvalidClaim)
        } else {
            match user_info {
                None => r is Err && is_user_not_found(r->Err_0),
                Some(u) => if u.claimed_flag {
                    r == Err::<(), AirdropErrors>(AirdropErrors::AlreadyClaimed)
                } else if u.claimable_amount > balance {
                    r == Err::<(), AirdropErrors>(AirdropErrors::InsufficientFundsInContractAccount { balance })
                } else {
                    r is Ok
                },
            }
        },
{
    if config.start_height == 0 || config.end_height == 0 || height > config.end_height || height < config.start_height {
        return Err(AirdropErrors::InvalidClaim);
    }
    let u = match user_info {
        Some(u) => u,
        None => { return Err(not_found()); },
    };
    if u.claimed_flag {
        return Err(AirdropErrors::AlreadyClaimed);
    }
    if u.claimable_amount > balance {
        return Err(AirdropErrors::InsufficientFundsInContractAccount { balance });
    }
    Ok(())
}

/// Checks a withdrawal of the remaining funds at `height`: only once the
/// airdrop window is set and has ended.
pub fn check_withdraw(config: &AirdropConfig, height: u64) -> (r: Result<(), AirdropErrors>)
    ensures
        r is Ok <==> !(height < config.end_height || config.end_height == 0 || config.start_height == 0),
        r is Err ==> r == Err::<(), AirdropErrors>(AirdropErrors::InvalidWithdraw),
{
    if height < config.end_height || config.end_height == 0 || config.start_height == 0 {
        return Err(AirdropErrors::InvalidWithdraw);
    }
    Ok(())
}

/// Whether the airdrop can pay all users: its amount covers what they may
/// claim and the contract holds it.
pub fn sanity_check(config: &AirdropConfig, total_in_user_info: u128, balance: u128) -> (r: bool)
    ensures
        r == (config.airdrop_amount >= total_in_user_info && balance >= config.airdrop_amount),
{
    if config.airdrop_amount >= total_in_user_info {
        if balance < config.airdrop_amount {
            return false;
        }
    } else {
        return false;
    }
    true
}

/// The number of users who claimed, who did not, and in all.
pub fn users_stats(table: &UserTable) -> (r: (u64, u64, u64))
    ensures
        r.2 == table.spec_entries().len(),
        r.0 + r.1 == r.2,
        r.0 == claimed_count(table.spec_entries()),
{
    let entries = table.entries();
    let ghost s = entries@;
    let mut claimed: u64 = 0;
    let mut total: u64 = 0;
    let mut i: usize = 0;
    while i < entries.len()
        invariant
            s == entries@,
            i <= s.len(),
            total == i,
            claimed == claimed_count(s.subrange(0, i as int)),
            claimed <= total,
        decreases s.len() - i,
    {
        proof {
            assert(s.subrange(0, i + 1).drop_last() =~= s.subrange(0, i as int));
        }
        if entries[i].1.claimed_flag {
            claimed = claimed + 1;
        }
        total = total + 1;
        i = i + 1;
    }
    assert(s.subrange(0, s.len() as int) =~= s);
    (claimed, total - claimed, total)
}

/// The number of entries whose user claimed.
pub open spec fn claimed_count(s: Seq<(String, UserInfo)>) -> int
    decreases s.len(),
{
    if s.len() == 0 { 0 } else { claimed_count(s.drop_last()) + if s.last().1.claimed_flag { 1int } else { 0int } }
}

} // verus!
