use forbitswap::errors::ExchangeError;
use forbitswap::farm::{
    get_farm_account, get_key_farm_account, get_sum_tokens, Tokens, MIN_TIME, TIME_DAY, TIME_YEAR,
};
use forbitswap::utils::check_min_amounts;
use forbitswap::RunningState;

fn id(name: &str) -> String {
    name.to_string()
}

fn started(start: u128, run: u128, balance: u128) -> Tokens {
    let mut farm = Tokens::new(&id("alice"), &id("dai"), balance);
    farm.set_time(&1, &start, run).unwrap();
    farm
}

#[test]
fn farm_constants_have_their_values() {
    assert_eq!(TIME_DAY, 86_400);
    assert_eq!(TIME_YEAR, 31_536_000);
    assert_eq!(MIN_TIME, 30);
}

#[test]
fn new_farm_is_not_started() {
    let farm = Tokens::new(&id("alice"), &id("dai"), 500);
    assert_eq!(farm.account, "alice");
    assert_eq!(farm.token_id, "dai");
    assert_eq!(farm.balance, 500);
    assert_eq!((farm.time_register, farm.time_start, farm.time_end), (0, 0, 0));
    assert_eq!(farm.state, RunningState::Running);
    let twin = farm.duplicate();
    assert_eq!(twin.account, "alice");
    assert_eq!(twin.balance, 500);
}

#[test]
fn setting_the_time_fixes_the_end() {
    let mut farm = Tokens::new(&id("alice"), &id("dai"), 500);
    assert_eq!(farm.set_time(&7, &100, 50), Ok(()));
    assert_eq!((farm.time_register, farm.time_start, farm.time_end), (7, 100, 150));
    assert_eq!(farm.set_time(&8, &u128::MAX, 1), Err(ExchangeError::Overflow));
    assert_eq!((farm.time_register, farm.time_start, farm.time_end), (7, 100, 150));
    assert_eq!(farm.set_time(&8, &u128::MAX, 0), Ok(()));
    assert_eq!(farm.time_end, u128::MAX);
}

#[test]
fn deposit_replaces_token_and_balance() {
    let mut farm = started(100, 50, 500);
    farm.deposit(&id("eth"), 9);
    assert_eq!(farm.token_id, "eth");
    assert_eq!(farm.balance, 9);
    assert_eq!(farm.time_end, 150);
}

#[test]
fn elapsed_time_is_clamped_to_the_run() {
    let farm = started(100, 50, 500);
    assert_eq!(farm.elapsed(0), 0);
    assert_eq!(farm.elapsed(100), 0);
    assert_eq!(farm.elapsed(101), 1);
    assert_eq!(farm.elapsed(150), 50);
    assert_eq!(farm.elapsed(151), 50);
    assert_eq!(farm.elapsed(u128::MAX), 50);
    assert_eq!(farm.elapsed_unbounded(99), 0);
    assert_eq!(farm.elapsed_unbounded(151), 51);
}

#[test]
fn withdrawal_is_checked_in_order() {
    let farm = started(100, 50, 500);
    assert_eq!(farm.check_withdraw(501, 40, 500), Err(ExchangeError::NotEnoughTokens));
    assert_eq!(farm.check_withdraw(100, 30, 500), Err(ExchangeError::MinimumTime));
    assert_eq!(farm.check_withdraw(100, 31, 500), Ok(400));
    assert_eq!(farm.check_withdraw(500, 31, 500), Ok(0));
    let idle = Tokens::new(&id("alice"), &id("dai"), 500);
    assert_eq!(idle.check_withdraw(100, 31, 500), Err(ExchangeError::NotStarted));
    assert_eq!(idle.check_withdraw(501, 31, 500), Err(ExchangeError::NotEnoughTokens));
}

#[test]
fn settling_a_withdrawal() {
    let mut farm = started(100, 50, 500);
    farm.settle_withdraw(400, 390);
    assert_eq!(farm.balance, 390);
    assert_eq!(farm.state, RunningState::Running);
    farm.settle_withdraw(0, 390);
    assert_eq!(farm.balance, 0);
    assert_eq!(farm.state, RunningState::Paused);
}

#[test]
fn only_the_owner_passes() {
    let farm = started(100, 50, 500);
    assert_eq!(farm.assert_owner(&id("alice")), Ok(()));
    assert_eq!(farm.assert_owner(&id("bob")), Err(ExchangeError::AccountNotOwner));
}

#[test]
fn farms_are_picked_by_account_and_token() {
    let farms = vec![
        (0u128, Tokens::new(&id("alice"), &id("dai"), 5)),
        (1u128, Tokens::new(&id("bob"), &id("dai"), 7)),
        (4u128, Tokens::new(&id("alice"), &id("eth"), 11)),
        (9u128, Tokens::new(&id("alice"), &id("dai"), 13)),
    ];
    assert_eq!(get_sum_tokens(&farms, &id("dai")), Ok(25));
    assert_eq!(get_sum_tokens(&farms, &id("eth")), Ok(11));
    assert_eq!(get_sum_tokens(&farms, &id("btc")), Ok(0));
    assert_eq!(get_key_farm_account(&farms, &id("alice")), vec![0u128, 4, 9]);
    assert_eq!(get_key_farm_account(&farms, &id("bob")), vec![1u128]);
    assert!(get_key_farm_account(&farms, &id("carol")).is_empty());
    let of_alice = get_farm_account(&farms, &id("alice"));
    let balances: Vec<u128> = of_alice.iter().map(|farm| farm.balance).collect();
    assert_eq!(balances, vec![5u128, 11, 13]);
    assert!(of_alice.iter().all(|farm| farm.account == "alice"));
    let heavy = vec![
        (0u128, Tokens::new(&id("alice"), &id("dai"), u128::MAX)),
        (1u128, Tokens::new(&id("bob"), &id("eth"), 7)),
        (2u128, Tokens::new(&id("bob"), &id("dai"), 1)),
    ];
    assert_eq!(get_sum_tokens(&heavy, &id("dai")), Err(ExchangeError::Overflow));
    assert_eq!(get_sum_tokens(&heavy, &id("eth")), Ok(7));
}

#[test]
fn amounts_are_held_against_their_minimums() {
    assert_eq!(check_min_amounts(&vec![5, 6], &vec![5, 6]), Ok(()));
    assert_eq!(check_min_amounts(&vec![5, 6], &vec![5, 7]), Err(ExchangeError::MinAmount));
    assert_eq!(check_min_amounts(&vec![5, 6], &vec![6, 0]), Err(ExchangeError::MinAmount));
    assert_eq!(check_min_amounts(&vec![5, 6], &vec![5]), Ok(()));
    assert_eq!(check_min_amounts(&vec![5], &vec![5, 100]), Ok(()));
    assert_eq!(check_min_amounts(&vec![], &vec![1]), Ok(()));
}
