use quasar_vaults::burn::{execute_coins_burn, query_total_burn};
use quasar_vaults::coin::{coin, Coin};

#[test]
fn test_execute_coins_burn() {
    let funds = vec![coin(100, "denom1"), coin(50, "denom2")];
    let res = execute_coins_burn(vec![], &funds);
    assert_eq!(res.burn, vec![coin(100, "denom1"), coin(50, "denom2")]);
    assert_eq!(res.total_burnt, vec![coin(100, "denom1"), coin(50, "denom2")]);

    let funds = vec![coin(200, "denom1"), coin(30, "denom3")];
    let res = execute_coins_burn(res.total_burnt, &funds);
    assert_eq!(res.burn, vec![coin(200, "denom1"), coin(30, "denom3")]);
    assert_eq!(
        res.total_burnt,
        vec![coin(300, "denom1"), coin(50, "denom2"), coin(30, "denom3")]
    );
}

#[test]
fn query_answers_stored_totals() {
    let coins: Vec<Coin> = vec![coin(1_000_000, "denom1"), coin(10_000_000, "denom2")];
    let res = query_total_burn(&coins);
    assert_eq!(res.amount, coins);
}

#[test]
fn burn_of_same_denom_twice_adds_both() {
    let funds = vec![coin(7, "a"), coin(5, "a")];
    let res = execute_coins_burn(vec![coin(1, "a")], &funds);
    assert_eq!(res.total_burnt, vec![coin(13, "a")]);
}

#[test]
fn burn_of_nothing_keeps_totals() {
    let res = execute_coins_burn(vec![coin(4, "x")], &vec![]);
    assert!(res.burn.is_empty());
    assert_eq!(res.total_burnt, vec![coin(4, "x")]);
}
