use forbitswap::account::Account;
use forbitswap::admin_fee::AdminFees;
use forbitswap::errors::ExchangeError;
use forbitswap::exchange;
use forbitswap::pool::Pool;
use forbitswap::simple_pool::SimplePool;
use forbitswap::utils::INIT_SHARES_SUPPLY;

fn id(name: &str) -> String {
    name.to_string()
}

fn pool_with(first: u128, second: u128) -> Pool {
    let mut pool =
        Pool::SimplePool(SimplePool::new(vec![id("a.near"), id("b.near")], 30, 0, 0).unwrap());
    if first > 0 {
        let mut amounts = vec![first, second];
        pool.add_liquidity(&id("founder.near"), &mut amounts).unwrap();
    }
    pool
}

fn account_with(first: u128, second: u128) -> Account {
    let mut account = Account::new();
    account.deposit(&id("a.near"), first).unwrap();
    account.deposit(&id("b.near"), second).unwrap();
    account
}

fn reserves(pool: &Pool) -> Vec<u128> {
    match pool {
        Pool::SimplePool(pool) => pool.amounts().to_vec(),
    }
}

fn no_fees() -> AdminFees {
    AdminFees::zero(id("exchange.near"))
}

#[test]
fn liquidity_is_added_out_of_deposits() {
    let mut pool = pool_with(1000, 4000);
    let mut account = account_with(500, 5000);
    let alice = id("alice.near");
    let mut amounts = vec![100u128, 1000u128];
    let r = exchange::add_liquidity(&mut pool, &mut account, &alice, &mut amounts, None);
    assert_eq!(r, Ok(INIT_SHARES_SUPPLY / 10));
    assert_eq!(amounts, vec![100u128, 400u128]);
    assert_eq!(reserves(&pool), vec![1100u128, 4400u128]);
    assert_eq!(account.get_balance(&id("a.near")), Some(400));
    assert_eq!(account.get_balance(&id("b.near")), Some(4600));
    assert_eq!(pool.share_balances(&alice), INIT_SHARES_SUPPLY / 10);
}

#[test]
fn liquidity_below_the_minimum_changes_nothing() {
    let mut pool = pool_with(1000, 4000);
    let mut account = account_with(500, 5000);
    let alice = id("alice.near");
    let mut amounts = vec![100u128, 1000u128];
    let r = exchange::add_liquidity(
        &mut pool,
        &mut account,
        &alice,
        &mut amounts,
        Some(vec![100, 401]),
    );
    assert_eq!(r, Err(ExchangeError::MinAmount));
    assert_eq!(amounts, vec![100u128, 1000u128]);
    assert_eq!(reserves(&pool), vec![1000u128, 4000u128]);
    assert_eq!(account.get_balance(&id("b.near")), Some(5000));
    assert!(!pool.is_lp(&alice));
    let r = exchange::add_liquidity(
        &mut pool,
        &mut account,
        &alice,
        &mut amounts,
        Some(vec![100, 400]),
    );
    assert_eq!(r, Ok(INIT_SHARES_SUPPLY / 10));
}

#[test]
fn liquidity_that_the_deposits_do_not_cover_changes_nothing() {
    let mut pool = pool_with(1000, 4000);
    let mut account = account_with(500, 399);
    let alice = id("alice.near");
    let mut amounts = vec![100u128, 1000u128];
    let r = exchange::add_liquidity(&mut pool, &mut account, &alice, &mut amounts, None);
    assert_eq!(r, Err(ExchangeError::NotEnoughTokens));
    assert_eq!(amounts, vec![100u128, 1000u128]);
    assert_eq!(reserves(&pool), vec![1000u128, 4000u128]);
    assert_eq!(account.get_balance(&id("a.near")), Some(500));
    assert_eq!(account.get_balance(&id("b.near")), Some(399));
    assert_eq!(pool.share_total_balance(), INIT_SHARES_SUPPLY);

    let mut stranger = Account::new();
    let r = exchange::add_liquidity(&mut pool, &mut stranger, &alice, &mut amounts, None);
    assert_eq!(r, Err(ExchangeError::TokenNotRegistered));
    let mut zero = vec![0u128, 5];
    let r = exchange::add_liquidity(&mut pool, &mut account, &alice, &mut zero, None);
    assert_eq!(r, Err(ExchangeError::ZeroAmount));
}

#[test]
fn liquidity_is_removed_into_deposits() {
    let mut pool = pool_with(0, 0);
    let mut account = account_with(1000, 4000);
    let alice = id("alice.near");
    let mut amounts = vec![1000u128, 4000u128];
    exchange::add_liquidity(&mut pool, &mut account, &alice, &mut amounts, None).unwrap();
    assert_eq!(account.get_balance(&id("a.near")), Some(0));
    let r = exchange::remove_liquidity(
        &mut pool,
        &mut account,
        &alice,
        INIT_SHARES_SUPPLY / 4,
        vec![250, 1000],
    );
    assert_eq!(r, Ok(vec![250u128, 1000u128]));
    assert_eq!(reserves(&pool), vec![750u128, 3000u128]);
    assert_eq!(account.get_balance(&id("a.near")), Some(250));
    assert_eq!(account.get_balance(&id("b.near")), Some(1000));
    let r = exchange::remove_liquidity(
        &mut pool,
        &mut account,
        &alice,
        INIT_SHARES_SUPPLY / 4,
        vec![251, 0],
    );
    assert_eq!(r, Err(ExchangeError::MinAmount));
    assert_eq!(reserves(&pool), vec![750u128, 3000u128]);
}

#[test]
fn removal_that_overflows_a_deposit_changes_nothing() {
    let mut pool = pool_with(1000, 4000);
    let founder = id("founder.near");
    let mut account = account_with(5, u128::MAX - 999);
    let r = exchange::remove_liquidity(
        &mut pool,
        &mut account,
        &founder,
        INIT_SHARES_SUPPLY / 4,
        vec![0, 0],
    );
    assert_eq!(r, Err(ExchangeError::Overflow));
    assert_eq!(reserves(&pool), vec![1000u128, 4000u128]);
    assert_eq!(pool.share_balances(&founder), INIT_SHARES_SUPPLY);
    assert_eq!(account.get_balance(&id("a.near")), Some(5));
    assert_eq!(account.get_balance(&id("b.near")), Some(u128::MAX - 999));
    // an account without the tokens gets them registered
    let mut fresh = Account::new();
    let r = exchange::remove_liquidity(
        &mut pool,
        &mut fresh,
        &founder,
        INIT_SHARES_SUPPLY / 4,
        vec![0, 0],
    );
    assert_eq!(r, Ok(vec![250u128, 1000u128]));
    assert_eq!(fresh.get_balance(&id("b.near")), Some(1000));
}

#[test]
fn swap_moves_deposits_through_the_pool() {
    let mut pool = pool_with(1500, 1500);
    let mut account = account_with(100, 7);
    let r = exchange::swap(
        &mut pool,
        &mut account,
        &id("a.near"),
        100,
        &id("b.near"),
        93,
        no_fees(),
    );
    assert_eq!(r, Ok(93));
    assert_eq!(reserves(&pool), vec![1600u128, 1407u128]);
    assert_eq!(account.get_balance(&id("a.near")), Some(0));
    assert_eq!(account.get_balance(&id("b.near")), Some(100));
}

#[test]
fn refused_swap_changes_neither_pool_nor_deposits() {
    let mut pool = pool_with(1500, 1500);
    let mut account = account_with(100, 7);
    let a = id("a.near");
    let b = id("b.near");
    let r = exchange::swap(&mut pool, &mut account, &a, 101, &b, 0, no_fees());
    assert_eq!(r, Err(ExchangeError::NotEnoughTokens));
    let r = exchange::swap(&mut pool, &mut account, &id("c.near"), 1, &b, 0, no_fees());
    assert_eq!(r, Err(ExchangeError::TokenNotRegistered));
    let r = exchange::swap(&mut pool, &mut account, &a, 100, &b, 94, no_fees());
    assert_eq!(r, Err(ExchangeError::MinAmount));
    let r = exchange::swap(&mut pool, &mut account, &a, 100, &a, 0, no_fees());
    assert_eq!(r, Err(ExchangeError::SameTokenSwap));
    let r = exchange::swap(&mut pool, &mut account, &a, 100, &id("c.near"), 0, no_fees());
    assert_eq!(r, Err(ExchangeError::MissingToken));
    let mut full = account_with(100, u128::MAX - 92);
    let r = exchange::swap(&mut pool, &mut full, &a, 100, &b, 0, no_fees());
    assert_eq!(r, Err(ExchangeError::Overflow));
    assert_eq!(full.get_balance(&a), Some(100));
    assert_eq!(reserves(&pool), vec![1500u128, 1500u128]);
    assert_eq!(account.get_balance(&a), Some(100));
    assert_eq!(account.get_balance(&b), Some(7));
    let mut nearly = account_with(100, u128::MAX - 93);
    assert_eq!(exchange::swap(&mut pool, &mut nearly, &a, 100, &b, 0, no_fees()), Ok(93));
    assert_eq!(nearly.get_balance(&b), Some(u128::MAX));
}

#[test]
fn copies_are_independent() {
    let pool = pool_with(1500, 1500);
    let mut copy = pool.duplicate();
    copy.swap(&id("a.near"), 100, &id("b.near"), 0, no_fees()).unwrap();
    assert_eq!(reserves(&pool), vec![1500u128, 1500u128]);
    assert_eq!(reserves(&copy), vec![1600u128, 1407u128]);
    let account = account_with(3, 4);
    let mut twin = account.duplicate();
    twin.withdraw(&id("a.near"), 3).unwrap();
    assert_eq!(account.get_balance(&id("a.near")), Some(3));
    assert_eq!(twin.get_balance(&id("a.near")), Some(0));
    assert_eq!(twin.get_balance(&id("b.near")), Some(4));
}
