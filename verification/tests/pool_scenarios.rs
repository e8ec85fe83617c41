use forbitswap::admin_fee::AdminFees;
use forbitswap::errors::ExchangeError;
use forbitswap::simple_pool::SimplePool;
use forbitswap::u256::{mul_u128, U256};
use forbitswap::utils::{uint_sqrt, SwapVolume, INIT_SHARES_SUPPLY};

fn id(name: &str) -> String {
    name.to_string()
}

fn fresh_pool(fee: u32) -> SimplePool {
    SimplePool::new(vec![id("a.near"), id("b.near")], fee, 0, 0).unwrap()
}

fn funded_pool(fee: u32, first: u128, second: u128) -> SimplePool {
    let mut pool = fresh_pool(fee);
    let mut amounts = vec![first, second];
    pool.add_liquidity(&id("alice.near"), &mut amounts).unwrap();
    pool
}

fn root_of_product(pool: &SimplePool) -> u128 {
    uint_sqrt(mul_u128(pool.amounts()[0], pool.amounts()[1])).as_u128()
}

fn no_fees() -> AdminFees {
    AdminFees::zero(id("exchange.near"))
}

#[test]
fn deposits_then_swap_give_the_expected_numbers() {
    let mut pool = fresh_pool(30);
    let alice = id("alice.near");
    let mut amounts = vec![1000u128, 1000u128];
    let shares = pool.add_liquidity(&alice, &mut amounts).unwrap();
    assert_eq!(shares, INIT_SHARES_SUPPLY);
    assert_eq!(pool.amounts(), &[1000u128, 1000u128]);
    assert_eq!(amounts, vec![1000u128, 1000u128]);

    let mut second = vec![500u128, 500u128];
    let minted = pool.add_liquidity(&alice, &mut second).unwrap();
    assert_eq!(minted, INIT_SHARES_SUPPLY / 2);
    assert_eq!(second, vec![500u128, 500u128]);
    assert_eq!(pool.amounts(), &[1500u128, 1500u128]);
    assert_eq!(pool.share_total_balance(), INIT_SHARES_SUPPLY + INIT_SHARES_SUPPLY / 2);
    assert_eq!(pool.share_balance_of(&alice), INIT_SHARES_SUPPLY + INIT_SHARES_SUPPLY / 2);

    let before = root_of_product(&pool);
    let out = pool.swap(&id("a.near"), 100, &id("b.near"), 0, &no_fees()).unwrap();
    assert_eq!(out, 100 * 9970 * 1500 / (10000 * 1500 + 100 * 9970));
    assert_eq!(out, 93);
    assert_eq!(pool.amounts(), &[1600u128, 1407u128]);
    assert!(root_of_product(&pool) >= before);
    assert_eq!(before, 1500);
    assert_eq!(root_of_product(&pool), 1500);
}

#[test]
fn new_pool_is_empty() {
    let pool = fresh_pool(25);
    assert_eq!(pool.tokens(), &[id("a.near"), id("b.near")]);
    assert_eq!(pool.amounts(), &[0u128, 0u128]);
    assert_eq!(pool.get_fee(), 25);
    assert_eq!(pool.share_total_balance(), 0);
    assert_eq!(
        pool.get_volumes(),
        vec![SwapVolume { input: 0, output: 0 }, SwapVolume { input: 0, output: 0 }]
    );
    assert!(!pool.is_lp(&id("alice.near")));
    assert_eq!(pool.share_balance_of(&id("alice.near")), 0);
    assert!(pool.shares_to_vec().is_empty());
    let kept = SimplePool::new(vec![id("a.near"), id("b.near")], 1, 7, 9).unwrap();
    assert_eq!(kept.obsolete_fees(), (7, 9));
}

#[test]
fn new_pool_refuses_a_fee_at_the_divisor() {
    let r = SimplePool::new(vec![id("a.near"), id("b.near")], 10_000, 0, 0);
    assert_eq!(r.err(), Some(ExchangeError::FeeTooLarge));
    assert!(SimplePool::new(vec![id("a.near"), id("b.near")], 9_999, 0, 0).is_ok());
}

#[test]
fn new_pool_refuses_other_than_two_tokens() {
    let r = SimplePool::new(vec![id("a.near")], 30, 0, 0);
    assert_eq!(r.err(), Some(ExchangeError::ShouldHaveTwoTokens));
    let r = SimplePool::new(vec![id("a.near"), id("b.near"), id("c.near")], 30, 0, 0);
    assert_eq!(r.err(), Some(ExchangeError::ShouldHaveTwoTokens));
    // the fee is looked at first
    let r = SimplePool::new(vec![], 10_000, 0, 0);
    assert_eq!(r.err(), Some(ExchangeError::FeeTooLarge));
}

#[test]
fn new_pool_refuses_the_same_token_twice() {
    let r = SimplePool::new(vec![id("a.near"), id("a.near")], 30, 0, 0);
    assert_eq!(r.err(), Some(ExchangeError::DuplicateTokens));
}

#[test]
fn registering_twice_is_refused() {
    let mut pool = fresh_pool(30);
    let bob = id("bob.near");
    assert_eq!(pool.share_register(&bob), Ok(()));
    assert!(pool.is_lp(&bob));
    assert_eq!(pool.share_balance_of(&bob), 0);
    assert_eq!(pool.share_register(&bob), Err(ExchangeError::AlreadyRegistered));
    assert_eq!(pool.shares_to_vec(), vec![(id("bob.near"), 0u128)]);
    assert_eq!(pool.share_total_balance(), 0);
}

#[test]
fn first_deposit_mints_the_initial_supply_whatever_its_size() {
    let mut small = fresh_pool(30);
    let mut amounts = vec![1u128, 7u128];
    assert_eq!(small.add_liquidity(&id("alice.near"), &mut amounts), Ok(INIT_SHARES_SUPPLY));
    assert_eq!(small.amounts(), &[1u128, 7u128]);
    let mut large = fresh_pool(30);
    let mut amounts = vec![u128::MAX, u128::MAX];
    assert_eq!(large.add_liquidity(&id("alice.near"), &mut amounts), Ok(INIT_SHARES_SUPPLY));
    assert_eq!(large.amounts(), &[u128::MAX, u128::MAX]);
    assert!(large.is_lp(&id("alice.near")));
}

#[test]
fn deposit_off_the_ratio_takes_only_its_fair_part() {
    let mut pool = funded_pool(30, 1000, 4000);
    let bob = id("bob.near");
    let mut amounts = vec![100u128, 1000u128];
    let minted = pool.add_liquidity(&bob, &mut amounts).unwrap();
    // the first side is worth 100/1000 of the supply, the second 1000/4000
    assert_eq!(minted, INIT_SHARES_SUPPLY / 10);
    assert_eq!(amounts, vec![100u128, 400u128]);
    assert_eq!(pool.amounts(), &[1100u128, 4400u128]);
    assert_eq!(pool.share_balance_of(&bob), INIT_SHARES_SUPPLY / 10);
    assert_eq!(pool.share_total_balance(), INIT_SHARES_SUPPLY + INIT_SHARES_SUPPLY / 10);
}

#[test]
fn total_supply_is_the_sum_of_what_was_minted() {
    let mut pool = fresh_pool(30);
    let mut minted_sum: u128 = 0;
    let deposits: [(&str, u128, u128); 5] = [
        ("alice.near", 1000, 3000),
        ("bob.near", 10, 10),
        ("alice.near", 0, 5),
        ("carol.near", 777, 12345),
        ("bob.near", 1, 3),
    ];
    for (who, first, second) in deposits {
        let mut amounts = vec![first, second];
        if let Ok(minted) = pool.add_liquidity(&id(who), &mut amounts) {
            minted_sum += minted;
        }
        assert_eq!(pool.share_total_balance(), minted_sum);
        let held: u128 = pool.shares_to_vec().iter().map(|e| e.1).sum();
        assert_eq!(held, minted_sum);
    }
    assert!(minted_sum > INIT_SHARES_SUPPLY);
}

#[test]
fn deposit_with_wrong_number_of_amounts_is_refused() {
    let mut pool = funded_pool(30, 1000, 1000);
    let mut amounts = vec![10u128];
    assert_eq!(
        pool.add_liquidity(&id("bob.near"), &mut amounts),
        Err(ExchangeError::WrongTokenCount)
    );
    let mut amounts = vec![10u128, 10, 10];
    assert_eq!(
        pool.add_liquidity(&id("bob.near"), &mut amounts),
        Err(ExchangeError::WrongTokenCount)
    );
    assert_eq!(amounts, vec![10u128, 10, 10]);
    assert_eq!(pool.amounts(), &[1000u128, 1000u128]);
}

#[test]
fn zero_amounts_are_refused() {
    let mut pool = fresh_pool(30);
    let alice = id("alice.near");
    let mut amounts = vec![0u128, 10u128];
    assert_eq!(pool.add_liquidity(&alice, &mut amounts), Err(ExchangeError::ZeroAmount));
    assert_eq!(amounts, vec![0u128, 10u128]);
    assert_eq!(pool.share_total_balance(), 0);
    let mut amounts = vec![10u128, 0u128];
    assert_eq!(pool.add_liquidity(&alice, &mut amounts), Err(ExchangeError::ZeroAmount));

    let mut pool = funded_pool(30, 1000, 1000);
    let mut amounts = vec![0u128, 0u128];
    assert_eq!(pool.add_liquidity(&alice, &mut amounts), Err(ExchangeError::ZeroAmount));
    assert_eq!(
        pool.remove_liquidity(&alice, 0, vec![0, 0]),
        Err(ExchangeError::ZeroShares)
    );
    assert_eq!(
        pool.swap(&id("a.near"), 0, &id("b.near"), 0, &no_fees()),
        Err(ExchangeError::Invalid)
    );
    assert_eq!(pool.get_return(&id("a.near"), 0, &id("b.near")), Err(ExchangeError::Invalid));
    assert_eq!(pool.amounts(), &[1000u128, 1000u128]);
    assert_eq!(pool.share_total_balance(), INIT_SHARES_SUPPLY);
}

#[test]
fn deposit_too_small_for_one_share_is_refused() {
    // 10^30 of each token against 10^24 shares: one unit is worth no share
    let big: u128 = 1_000_000_000_000_000_000_000_000_000_000;
    let mut pool = funded_pool(30, big, big);
    let mut amounts = vec![1u128, 1u128];
    assert_eq!(pool.add_liquidity(&id("bob.near"), &mut amounts), Err(ExchangeError::ZeroShares));
    assert_eq!(amounts, vec![1u128, 1u128]);
    assert_eq!(pool.amounts(), &[big, big]);
}

#[test]
fn deposit_worth_shares_but_no_token_is_refused() {
    // leave a pool with reserves (1, 1) and 3 shares
    let mut pool = funded_pool(30, 2_000_000, 2_000_000);
    let alice = id("alice.near");
    pool.remove_liquidity(&alice, INIT_SHARES_SUPPLY - 3, vec![0, 0]).unwrap();
    assert_eq!(pool.share_total_balance(), 3);
    assert_eq!(pool.amounts(), &[1u128, 1u128]);
    // bring it to reserves (6, 6) and 18 shares
    let mut amounts = vec![5u128, 5u128];
    assert_eq!(pool.add_liquidity(&alice, &mut amounts), Ok(15));
    assert_eq!(amounts, vec![5u128, 5u128]);
    // and off balance, to reserves (12, 4): 6 * 9970 * 6 / (10000 * 6 + 6 * 9970) = 2
    assert_eq!(pool.swap(&id("a.near"), 6, &id("b.near"), 0, &no_fees()), Ok(2));
    assert_eq!(pool.amounts(), &[12u128, 4u128]);
    // one unit of each is worth min(18 / 12, 18 / 4) = 1 share, which stands for 12 / 18 = 0 units
    let mut amounts = vec![1u128, 1u128];
    assert_eq!(pool.add_liquidity(&alice, &mut amounts), Err(ExchangeError::ZeroAmount));
    assert_eq!(amounts, vec![1u128, 1u128]);
    // (3, 1) is worth 4 shares, which stand for 12 * 4 / 18 = 2 and 4 * 4 / 18 = 0 units
    let mut amounts = vec![3u128, 1u128];
    assert_eq!(pool.add_liquidity(&alice, &mut amounts), Err(ExchangeError::ZeroAmount));
    assert_eq!(pool.amounts(), &[12u128, 4u128]);
    assert_eq!(pool.share_total_balance(), 18);
    // (7, 2) is worth min(10, 9) = 9 shares, which stand for 6 and 2 units
    let mut amounts = vec![7u128, 2u128];
    assert_eq!(pool.add_liquidity(&alice, &mut amounts), Ok(9));
    assert_eq!(amounts, vec![6u128, 2u128]);
    assert_eq!(pool.amounts(), &[18u128, 6u128]);
    assert_eq!(pool.share_total_balance(), 27);
}

#[test]
fn deposit_that_overflows_a_reserve_is_refused() {
    let mut pool = funded_pool(30, u128::MAX - 5, 1000);
    let mut amounts = vec![u128::MAX, 1000u128];
    let r = pool.add_liquidity(&id("bob.near"), &mut amounts);
    assert_eq!(r, Err(ExchangeError::Overflow));
    assert_eq!(amounts, vec![u128::MAX, 1000u128]);
    assert_eq!(pool.amounts(), &[u128::MAX - 5, 1000u128]);
    assert_eq!(pool.share_total_balance(), INIT_SHARES_SUPPLY);
}

#[test]
fn deposit_whose_shares_leave_128_bits_is_refused() {
    let mut pool = funded_pool(30, 1, 1);
    // each side is worth u128::MAX * 10^24 shares
    let mut amounts = vec![u128::MAX - 1, u128::MAX - 1];
    assert_eq!(pool.add_liquidity(&id("bob.near"), &mut amounts), Err(ExchangeError::Overflow));
    assert_eq!(pool.amounts(), &[1u128, 1u128]);
}

#[test]
fn withdrawal_pays_the_part_that_the_shares_stand_for() {
    let mut pool = funded_pool(30, 1000, 4000);
    let alice = id("alice.near");
    let paid = pool.remove_liquidity(&alice, INIT_SHARES_SUPPLY / 4, vec![250, 1000]).unwrap();
    assert_eq!(paid, vec![250u128, 1000u128]);
    assert_eq!(pool.amounts(), &[750u128, 3000u128]);
    assert_eq!(pool.share_total_balance(), INIT_SHARES_SUPPLY / 4 * 3);
    assert_eq!(pool.share_balance_of(&alice), INIT_SHARES_SUPPLY / 4 * 3);
}

#[test]
fn withdrawal_rounds_down() {
    let mut pool = funded_pool(30, 10, 10);
    let alice = id("alice.near");
    let paid = pool.remove_liquidity(&alice, INIT_SHARES_SUPPLY / 3, vec![0, 0]).unwrap();
    // 10 * (10^24 / 3) / 10^24 = 3
    assert_eq!(paid, vec![3u128, 3u128]);
    assert_eq!(pool.amounts(), &[7u128, 7u128]);
}

#[test]
fn withdrawing_everything_keeps_the_registration() {
    let mut pool = funded_pool(30, 1000, 4000);
    let alice = id("alice.near");
    let paid = pool.remove_liquidity(&alice, INIT_SHARES_SUPPLY, vec![0, 0]).unwrap();
    assert_eq!(paid, vec![1000u128, 4000u128]);
    assert_eq!(pool.amounts(), &[0u128, 0u128]);
    assert_eq!(pool.share_total_balance(), 0);
    assert!(pool.is_lp(&alice));
    assert_eq!(pool.share_balance_of(&alice), 0);
    assert_eq!(pool.shares_to_vec(), vec![(id("alice.near"), 0u128)]);
    // the pool starts over with the next deposit
    let mut amounts = vec![5u128, 6u128];
    assert_eq!(pool.add_liquidity(&id("bob.near"), &mut amounts), Ok(INIT_SHARES_SUPPLY));
    assert_eq!(pool.amounts(), &[5u128, 6u128]);
}

#[test]
fn withdrawal_without_registration_is_refused() {
    let mut pool = funded_pool(30, 1000, 1000);
    assert_eq!(
        pool.remove_liquidity(&id("bob.near"), 1, vec![0, 0]),
        Err(ExchangeError::NoShares)
    );
    assert_eq!(pool.amounts(), &[1000u128, 1000u128]);
}

#[test]
fn withdrawal_of_more_than_held_is_refused() {
    let mut pool = funded_pool(30, 1000, 1000);
    let bob = id("bob.near");
    pool.share_register(&bob).unwrap();
    assert_eq!(pool.remove_liquidity(&bob, 1, vec![0, 0]), Err(ExchangeError::NotEnoughShares));
    assert_eq!(
        pool.remove_liquidity(&id("alice.near"), INIT_SHARES_SUPPLY + 1, vec![0, 0]),
        Err(ExchangeError::NotEnoughShares)
    );
    assert_eq!(pool.share_total_balance(), INIT_SHARES_SUPPLY);
}

#[test]
fn withdrawal_below_the_minimum_is_refused() {
    let mut pool = funded_pool(30, 1000, 4000);
    let alice = id("alice.near");
    assert_eq!(
        pool.remove_liquidity(&alice, INIT_SHARES_SUPPLY / 4, vec![251, 0]),
        Err(ExchangeError::MinAmount)
    );
    assert_eq!(
        pool.remove_liquidity(&alice, INIT_SHARES_SUPPLY / 4, vec![0, 1001]),
        Err(ExchangeError::MinAmount)
    );
    assert_eq!(
        pool.remove_liquidity(&alice, INIT_SHARES_SUPPLY / 4, vec![0]),
        Err(ExchangeError::WrongTokenCount)
    );
    assert_eq!(pool.amounts(), &[1000u128, 4000u128]);
    assert_eq!(pool.share_balance_of(&alice), INIT_SHARES_SUPPLY);
}

#[test]
fn deposit_then_withdrawal_never_pays_more_than_was_put_in() {
    let cases: [(u128, u128, u128, u128); 5] = [
        (1000, 1000, 500, 500),
        (1000, 4000, 100, 1000),
        (7, 13, 5, 9),
        (999_999, 3, 1234, 1),
        (1, 1_000_000_007, 3, 999_999_937),
    ];
    for (first, second, give_first, give_second) in cases {
        let mut pool = funded_pool(30, first, second);
        // some trading moves the ratio off what the first deposit set
        let _ = pool.swap(&id("a.near"), 1 + first / 3, &id("b.near"), 0, &no_fees());
        let reserves = pool.amounts().to_vec();
        let supply = pool.share_total_balance();
        let bob = id("bob.near");
        let mut amounts = vec![give_first, give_second];
        let minted = match pool.add_liquidity(&bob, &mut amounts) {
            Ok(minted) => minted,
            Err(_) => continue,
        };
        assert!(amounts[0] <= give_first && amounts[1] <= give_second);
        let paid = pool.remove_liquidity(&bob, minted, vec![0, 0]).unwrap();
        assert!(paid[0] <= amounts[0] && paid[1] <= amounts[1]);
        assert!(pool.amounts()[0] >= reserves[0] && pool.amounts()[1] >= reserves[1]);
        assert_eq!(pool.share_total_balance(), supply);
    }
}

#[test]
fn first_deposit_comes_back_whole() {
    let mut pool = fresh_pool(30);
    let alice = id("alice.near");
    let mut amounts = vec![123u128, 456u128];
    let minted = pool.add_liquidity(&alice, &mut amounts).unwrap();
    let paid = pool.remove_liquidity(&alice, minted, vec![0, 0]).unwrap();
    assert_eq!(paid, vec![123u128, 456u128]);
}

#[test]
fn price_follows_the_constant_product() {
    let pool = funded_pool(30, 1500, 1500);
    assert_eq!(pool.get_return(&id("a.near"), 100, &id("b.near")), Ok(93));
    assert_eq!(pool.get_return(&id("b.near"), 100, &id("a.near")), Ok(93));
    let pool = funded_pool(0, 1000, 1000);
    // without a fee: 1000 * 1000 / (1000 + 1000) = 500
    assert_eq!(pool.get_return(&id("a.near"), 1000, &id("b.near")), Ok(500));
    let pool = funded_pool(9_999, 1000, 1000);
    // with nearly all taken as fee: 1000 * 1 * 1000 / (10000 * 1000 + 1000) = 0
    assert_eq!(pool.get_return(&id("a.near"), 1000, &id("b.near")), Ok(0));
    let pool = funded_pool(100, 5_000_000, 20_000);
    // 40000 * 9900 * 20000 / (10000 * 5000000 + 40000 * 9900) = 157
    assert_eq!(pool.get_return(&id("a.near"), 40_000, &id("b.near")), Ok(157));
}

#[test]
fn price_of_an_unknown_token_is_refused() {
    let pool = funded_pool(30, 1000, 1000);
    assert_eq!(
        pool.get_return(&id("c.near"), 10, &id("b.near")),
        Err(ExchangeError::MissingToken)
    );
    assert_eq!(
        pool.get_return(&id("a.near"), 10, &id("c.near")),
        Err(ExchangeError::MissingToken)
    );
    assert_eq!(pool.get_return(&id("a.near"), 10, &id("a.near")), Err(ExchangeError::Invalid));
    let empty = fresh_pool(30);
    assert_eq!(empty.get_return(&id("a.near"), 10, &id("b.near")), Err(ExchangeError::Invalid));
}

#[test]
fn price_that_leaves_256_bits_is_refused() {
    let pool = funded_pool(0, u128::MAX, u128::MAX);
    // u128::MAX * 10000 * u128::MAX does not fit in 256 bits
    assert_eq!(
        pool.get_return(&id("a.near"), u128::MAX, &id("b.near")),
        Err(ExchangeError::Overflow)
    );
}

#[test]
fn swap_refusals_change_nothing() {
    let mut pool = funded_pool(30, 1500, 1500);
    let a = id("a.near");
    let b = id("b.near");
    assert_eq!(pool.swap(&a, 100, &a, 0, &no_fees()), Err(ExchangeError::SameTokenSwap));
    assert_eq!(
        pool.swap(&id("c.near"), 100, &id("c.near"), 0, &no_fees()),
        Err(ExchangeError::SameTokenSwap)
    );
    assert_eq!(
        pool.swap(&id("c.near"), 100, &b, 0, &no_fees()),
        Err(ExchangeError::MissingToken)
    );
    assert_eq!(
        pool.swap(&a, 100, &id("c.near"), 0, &no_fees()),
        Err(ExchangeError::MissingToken)
    );
    assert_eq!(pool.swap(&a, 100, &b, 94, &no_fees()), Err(ExchangeError::MinAmount));
    assert_eq!(pool.amounts(), &[1500u128, 1500u128]);
    assert_eq!(pool.share_total_balance(), INIT_SHARES_SUPPLY);
    assert_eq!(pool.get_volumes()[0], SwapVolume { input: 0, output: 0 });
    let mut empty = fresh_pool(30);
    assert_eq!(empty.swap(&a, 100, &b, 0, &no_fees()), Err(ExchangeError::Invalid));
}

#[test]
fn swap_at_exactly_the_minimum_goes_through() {
    let mut pool = funded_pool(30, 1500, 1500);
    let a = id("a.near");
    let b = id("b.near");
    let price = pool.get_return(&a, 100, &b).unwrap();
    assert_eq!(pool.swap(&a, 100, &b, price + 1, &no_fees()), Err(ExchangeError::MinAmount));
    assert_eq!(pool.amounts(), &[1500u128, 1500u128]);
    assert_eq!(pool.swap(&a, 100, &b, price, &no_fees()), Ok(price));
    assert_eq!(pool.amounts(), &[1600u128, 1500 - price]);
}

#[test]
fn swap_that_overflows_the_reserve_is_refused() {
    let mut pool = funded_pool(30, u128::MAX - 10, 1000);
    let r = pool.swap(&id("a.near"), 11, &id("b.near"), 0, &no_fees());
    assert_eq!(r, Err(ExchangeError::Overflow));
    assert_eq!(pool.amounts(), &[u128::MAX - 10, 1000u128]);
    assert_eq!(pool.swap(&id("a.near"), 10, &id("b.near"), 0, &no_fees()), Ok(0));
    assert_eq!(pool.amounts(), &[u128::MAX, 1000u128]);
}

#[test]
fn swap_counts_volume_on_the_token_paid_in() {
    let mut pool = funded_pool(30, 1500, 1500);
    let a = id("a.near");
    let b = id("b.near");
    pool.swap(&a, 100, &b, 0, &no_fees()).unwrap();
    assert_eq!(
        pool.get_volumes(),
        vec![SwapVolume { input: 100, output: 93 }, SwapVolume { input: 0, output: 0 }]
    );
    let out = pool.swap(&b, 50, &a, 0, &no_fees()).unwrap();
    assert_eq!(out, 54);
    assert_eq!(
        pool.get_volumes(),
        vec![SwapVolume { input: 100, output: 93 }, SwapVolume { input: 50, output: 54 }]
    );
    assert_eq!(pool.amounts(), &[1546u128, 1457u128]);
}

#[test]
fn root_of_the_product_never_falls_in_a_swap() {
    let fees = [0u32, 1, 30, 5_000, 9_999];
    let sizes = [1u128, 2, 3, 10, 999, 1_000_000, 123_456_789_012];
    for fee in fees {
        let mut pool = funded_pool(fee, 1_000_003, 999_983);
        for (n, size) in sizes.iter().enumerate() {
            let before = root_of_product(&pool);
            let (from, to) = if n % 2 == 0 { ("a.near", "b.near") } else { ("b.near", "a.near") };
            let r = pool.swap(&id(from), *size, &id(to), 0, &no_fees());
            assert!(r.is_ok());
            assert!(root_of_product(&pool) >= before);
            assert!(pool.amounts()[0] > 0 && pool.amounts()[1] > 0);
        }
    }
}

#[test]
fn exchange_earns_shares_on_the_growth() {
    let mut pool = funded_pool(1000, 1_000_000, 1_000_000);
    let exchange = id("exchange.near");
    let fees = AdminFees::new(2000, exchange.clone());
    let out = pool.swap(&id("a.near"), 1_000_000, &id("b.near"), 0, &fees).unwrap();
    // 1000000 * 9000 * 1000000 / (10000 * 1000000 + 1000000 * 9000) = 473684
    assert_eq!(out, 473_684);
    assert_eq!(pool.amounts(), &[2_000_000u128, 526_316u128]);
    // sqrt(2000000 * 526316) = 1025978, growth 25978
    let root = root_of_product(&pool);
    assert_eq!(root, 1_025_978);
    // 25978 * 10^24 / (1025978 * 10000 / 2000)
    let expected: u128 = 25_978 * INIT_SHARES_SUPPLY / (1_025_978 * 10_000 / 2_000);
    assert_eq!(pool.share_balance_of(&exchange), expected);
    assert_eq!(pool.share_total_balance(), INIT_SHARES_SUPPLY + expected);
    assert!(pool.is_lp(&exchange));
}

#[test]
fn registered_referrer_earns_shares_too() {
    let mut pool = funded_pool(1000, 1_000_000, 1_000_000);
    let exchange = id("exchange.near");
    let referrer = id("referrer.near");
    pool.share_register(&referrer).unwrap();
    let fees = AdminFees {
        exchange_fee: 2000,
        exchange_id: exchange.clone(),
        referral_fee: 500,
        referral_id: Some(referrer.clone()),
    };
    pool.swap(&id("a.near"), 1_000_000, &id("b.near"), 0, &fees).unwrap();
    let to_exchange: u128 = 25_978 * INIT_SHARES_SUPPLY / (1_025_978 * 10_000 / 2_000);
    let to_referrer: u128 = 25_978 * INIT_SHARES_SUPPLY / (1_025_978 * 10_000 / 500);
    assert_eq!(pool.share_balance_of(&exchange), to_exchange);
    assert_eq!(pool.share_balance_of(&referrer), to_referrer);
    assert_eq!(pool.share_total_balance(), INIT_SHARES_SUPPLY + to_exchange + to_referrer);
}

#[test]
fn unregistered_referrer_earns_nothing_and_gets_no_entry() {
    let exchange = id("exchange.near");
    let referrer = id("referrer.near");
    let with_referrer = AdminFees {
        exchange_fee: 2000,
        exchange_id: exchange.clone(),
        referral_fee: 500,
        referral_id: Some(referrer.clone()),
    };
    let without = AdminFees::new(2000, exchange.clone());
    let mut pool = funded_pool(1000, 1_000_000, 1_000_000);
    let mut twin = funded_pool(1000, 1_000_000, 1_000_000);
    let out = pool.swap(&id("a.near"), 1_000_000, &id("b.near"), 0, &with_referrer).unwrap();
    let twin_out = twin.swap(&id("a.near"), 1_000_000, &id("b.near"), 0, &without).unwrap();
    assert_eq!(out, twin_out);
    assert!(!pool.is_lp(&referrer));
    assert_eq!(pool.share_balance_of(&referrer), 0);
    let to_exchange: u128 = 25_978 * INIT_SHARES_SUPPLY / (1_025_978 * 10_000 / 2_000);
    assert_eq!(pool.share_total_balance(), INIT_SHARES_SUPPLY + to_exchange);
    assert_eq!(pool.share_total_balance(), twin.share_total_balance());
    assert_eq!(pool.shares_to_vec(), twin.shares_to_vec());
    assert_eq!(pool.amounts(), twin.amounts());
}

#[test]
fn referrer_who_is_the_unregistered_exchange_earns_once() {
    let exchange = id("exchange.near");
    let fees = AdminFees {
        exchange_fee: 2000,
        exchange_id: exchange.clone(),
        referral_fee: 500,
        referral_id: Some(exchange.clone()),
    };
    let mut pool = funded_pool(1000, 1_000_000, 1_000_000);
    pool.swap(&id("a.near"), 1_000_000, &id("b.near"), 0, &fees).unwrap();
    let to_exchange: u128 = 25_978 * INIT_SHARES_SUPPLY / (1_025_978 * 10_000 / 2_000);
    assert_eq!(pool.share_balance_of(&exchange), to_exchange);
}

#[test]
fn swap_without_growth_mints_nothing() {
    let mut pool = funded_pool(30, 1500, 1500);
    let exchange = id("exchange.near");
    let fees = AdminFees::new(2000, exchange.clone());
    pool.swap(&id("a.near"), 100, &id("b.near"), 0, &fees).unwrap();
    // the root stays at 1500, so there is nothing to share out
    assert!(!pool.is_lp(&exchange));
    assert_eq!(pool.share_total_balance(), INIT_SHARES_SUPPLY);
}

#[test]
fn fee_share_with_a_divisor_of_zero_is_refused() {
    let mut pool = funded_pool(5000, 1, 1);
    // the root grows from 1 to 2; 2 * 10000 / 4000000000 rounds down to zero
    let fees = AdminFees::new(4_000_000_000, id("exchange.near"));
    let r = pool.swap(&id("a.near"), 3, &id("b.near"), 0, &fees);
    assert_eq!(pool.get_return(&id("a.near"), 3, &id("b.near")), Ok(0));
    assert_eq!(r, Err(ExchangeError::Overflow));
    assert_eq!(pool.amounts(), &[1u128, 1u128]);
    assert_eq!(pool.share_total_balance(), INIT_SHARES_SUPPLY);
}

#[test]
fn minting_outside_a_deposit() {
    let mut pool = fresh_pool(30);
    let bob = id("bob.near");
    assert_eq!(pool.mint_shares(&bob, 0), Ok(()));
    assert!(!pool.is_lp(&bob));
    assert_eq!(pool.mint_shares(&bob, 5), Err(ExchangeError::NoLiquidity));
    let mut pool = funded_pool(30, 1000, 1000);
    assert_eq!(pool.mint_shares(&bob, 5), Ok(()));
    assert_eq!(pool.share_balance_of(&bob), 5);
    assert_eq!(pool.share_total_balance(), INIT_SHARES_SUPPLY + 5);
    assert_eq!(pool.mint_shares(&bob, u128::MAX), Err(ExchangeError::Overflow));
    assert_eq!(pool.share_total_balance(), INIT_SHARES_SUPPLY + 5);
    assert_eq!(pool.mint_shares(&bob, 0), Ok(()));
    assert_eq!(pool.share_balance_of(&bob), 5);
}

#[test]
fn prediction_matches_the_withdrawal() {
    let mut pool = funded_pool(30, 1000, 4000);
    let alice = id("alice.near");
    let predicted = pool.predict_remove_liquidity(INIT_SHARES_SUPPLY / 4).unwrap();
    let paid = pool.remove_liquidity(&alice, INIT_SHARES_SUPPLY / 4, vec![0, 0]).unwrap();
    assert_eq!(predicted, paid);
    assert_eq!(predicted, vec![250u128, 1000u128]);
    assert_eq!(fresh_pool(30).predict_remove_liquidity(5), Ok(vec![0u128, 0u128]));
    assert_eq!(pool.predict_remove_liquidity(0), Ok(vec![0u128, 0u128]));
}

#[test]
fn prediction_that_leaves_128_bits_is_refused() {
    let mut pool = funded_pool(30, u128::MAX, u128::MAX);
    pool.remove_liquidity(&id("alice.near"), INIT_SHARES_SUPPLY - 1, vec![0, 0]).unwrap();
    assert_eq!(pool.share_total_balance(), 1);
    assert!(pool.amounts()[0] > u128::MAX / INIT_SHARES_SUPPLY);
    assert_eq!(pool.predict_remove_liquidity(u128::MAX), Err(ExchangeError::Overflow));
}

#[test]
fn pool_comes_back_from_its_parts() {
    let mut pool = funded_pool(30, 1500, 1500);
    pool.share_register(&id("bob.near")).unwrap();
    pool.swap(&id("a.near"), 100, &id("b.near"), 0, &no_fees()).unwrap();
    let (exchange_fee, referral_fee) = pool.obsolete_fees();
    let mut again = SimplePool::from_parts(
        pool.tokens().to_vec(),
        pool.amounts().to_vec(),
        pool.get_volumes(),
        pool.get_fee(),
        exchange_fee,
        referral_fee,
        &pool.shares_to_vec(),
    )
    .unwrap();
    assert_eq!(again.tokens(), pool.tokens());
    assert_eq!(again.amounts(), pool.amounts());
    assert_eq!(again.get_volumes(), pool.get_volumes());
    assert_eq!(again.shares_to_vec(), pool.shares_to_vec());
    assert_eq!(again.share_total_balance(), pool.share_total_balance());
    assert_eq!(
        again.swap(&id("b.near"), 10, &id("a.near"), 0, &no_fees()),
        pool.swap(&id("b.near"), 10, &id("a.near"), 0, &no_fees())
    );
}

#[test]
fn parts_that_make_no_pool_are_refused() {
    let tokens = || vec![id("a.near"), id("b.near")];
    let volumes = || vec![SwapVolume::default(), SwapVolume::default()];
    let holder = || vec![(id("alice.near"), 10u128)];
    assert!(SimplePool::from_parts(tokens(), vec![5, 5], volumes(), 30, 0, 0, &holder()).is_some());
    assert!(SimplePool::from_parts(tokens(), vec![0, 0], volumes(), 30, 0, 0, &vec![]).is_some());
    // reserves without shares, and shares without reserves
    assert!(SimplePool::from_parts(tokens(), vec![5, 5], volumes(), 30, 0, 0, &vec![]).is_none());
    assert!(SimplePool::from_parts(tokens(), vec![0, 5], volumes(), 30, 0, 0, &holder()).is_none());
    // a holder twice
    let twice = vec![(id("alice.near"), 10u128), (id("alice.near"), 1u128)];
    assert!(SimplePool::from_parts(tokens(), vec![5, 5], volumes(), 30, 0, 0, &twice).is_none());
    // holdings that leave 128 bits
    let heavy = vec![(id("alice.near"), u128::MAX), (id("bob.near"), 1u128)];
    assert!(SimplePool::from_parts(tokens(), vec![5, 5], volumes(), 30, 0, 0, &heavy).is_none());
    // wrong lengths, the same token twice, a fee at the divisor
    assert!(SimplePool::from_parts(tokens(), vec![5], volumes(), 30, 0, 0, &holder()).is_none());
    assert!(SimplePool::from_parts(
        vec![id("a.near"), id("a.near")],
        vec![5, 5],
        volumes(),
        30,
        0,
        0,
        &holder()
    )
    .is_none());
    assert!(
        SimplePool::from_parts(tokens(), vec![5, 5], volumes(), 10_000, 0, 0, &holder()).is_none()
    );
    assert!(SimplePool::from_parts(tokens(), vec![5, 5], vec![], 30, 0, 0, &holder()).is_none());
}

#[test]
fn wide_products_do_not_wrap() {
    // 2^127 * 10^24 / 2^127 shares for each side
    let mut pool = funded_pool(30, 1 << 127, 1 << 127);
    let mut amounts = vec![1u128 << 126, 1u128 << 126];
    let minted = pool.add_liquidity(&id("bob.near"), &mut amounts).unwrap();
    assert_eq!(minted, INIT_SHARES_SUPPLY / 2);
    assert_eq!(amounts, vec![1u128 << 126, 1u128 << 126]);
    let product = mul_u128(pool.amounts()[0], pool.amounts()[1]);
    assert!(U256::from_u128(u128::MAX).lt(&product));
}
