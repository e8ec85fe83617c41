//! Constants of the exchange, small helpers on lists and balances, and the
//! integer square root.

use crate::balance_map::{distinct_keys, BalanceMap};
use crate::errors::ExchangeError;
use crate::u256::{pow2_255, pow2_256, U256};
use vstd::prelude::*;

verus! {

/// Number of tokens in a pool.
pub const NUM_TOKENS: usize = 2;

/// Fee divisor, allowing to provide fee in bps.
pub const FEE_DIVISOR: u32 = 10_000;

/// Initial shares supply on deposit of liquidity.
pub const INIT_SHARES_SUPPLY: u128 = 1_000_000_000_000_000_000_000_000;

/// Volume of swap on the given token.
#[derive(Clone, Copy, Debug, PartialEq, Eq, Structural)]
pub struct SwapVolume {
    /// Everything that was paid into the pool in this token.
    pub input: u128,
    /// Everything that was paid out for it in the other token.
    pub output: u128,
}

impl Default for SwapVolume {
    fn default() -> (r: Self)
        ensures
            r.input == 0,
            r.output == 0,
    {
        SwapVolume { input: 0, output: 0 }
    }
}

/// Refuses a list of tokens in which one occurs twice, with `DuplicateTokens`.
pub fn check_duplicate_tokens(tokens: &Vec<String>) -> (r: Result<(), ExchangeError>)
    ensures
        distinct_keys(tokens@) ==> r is Ok,
        !distinct_keys(tokens@) ==> r == Err::<(), ExchangeError>(ExchangeError::DuplicateTokens),
{
    let mut j: usize = 0;
    while j < tokens.len()
        invariant
            j <= tokens.len(),
            forall|a: int, b: int| 0 <= a < b < j ==> tokens[a]@ != tokens[b]@,
        decreases tokens.len() - j,
    {
        let mut i: usize = 0;
        while i < j
            invariant
                i <= j < tokens.len(),
                forall|a: int| 0 <= a < i ==> tokens[a]@ != tokens[j as int]@,
            decreases j - i,
        {
            if tokens[i] == tokens[j] {
                return Err(ExchangeError::DuplicateTokens);
            }
            i = i + 1;
        }
        j = j + 1;
    }
    Ok(())
}

/// A copy of a list of names.
pub fn clone_names(names: &Vec<String>) -> (r: Vec<String>)
    ensures
        r@ == names@,
{
    let mut copy: Vec<String> = Vec::new();
    let mut i: usize = 0;
    while i < names.len()
        invariant
            i <= names.len(),
            copy@ == names@.take(i as int),
        decreases names.len() - i,
    {
        copy.push(names[i].clone());
        assert(names@.take(i + 1) =~= names@.take(i as int).push(names[i as int]));
        i = i + 1;
    }
    assert(names@.take(i as int) =~= names@);
    copy
}

/// A copy of a list of amounts.
pub fn clone_amounts(amounts: &Vec<u128>) -> (r: Vec<u128>)
    ensures
        r@ == amounts@,
{
    let mut copy: Vec<u128> = Vec::new();
    let mut i: usize = 0;
    while i < amounts.len()
        invariant
            i <= amounts.len(),
            copy@ == amounts@.take(i as int),
        decreases amounts.len() - i,
    {
        copy.push(amounts[i]);
        assert(amounts@.take(i + 1) =~= amounts@.take(i as int).push(amounts[i as int]));
        i = i + 1;
    }
    assert(amounts@.take(i as int) =~= amounts@);
    copy
}

/// Passes where none of the amounts is below the minimum given for it, and
/// is refused with `MinAmount` otherwise. A minimum without an amount, and
/// an amount without a minimum, decide nothing.
pub fn check_min_amounts(amounts: &Vec<u128>, min_amounts: &Vec<u128>) -> (r: Result<
    (),
    ExchangeError,
>)
    ensures
        spec_below_minimum(amounts@, min_amounts@) ==> r == Err::<(), ExchangeError>(
            ExchangeError::MinAmount,
        ),
        !spec_below_minimum(amounts@, min_amounts@) ==> r is Ok,
{
    let mut i: usize = 0;
    while i < amounts.len() && i < min_amounts.len()
        invariant
            forall|j: int| 0 <= j < i ==> amounts[j] >= min_amounts[j],
            i <= amounts.len(),
            i <= min_amounts.len(),
        decreases amounts.len() - i,
    {
        if amounts[i] < min_amounts[i] {
            return Err(ExchangeError::MinAmount);
        }
        i = i + 1;
    }
    Ok(())
}

/// Whether some amount is below the minimum given for it.
pub open spec fn spec_below_minimum(amounts: Seq<u128>, min_amounts: Seq<u128>) -> bool {
    exists|i: int| 0 <= i < amounts.len() && i < min_amounts.len() && amounts[i] < min_amounts[i]
}

/// Adds `value` to the balance under `key`, which starts at zero where there
/// is no entry yet. Refused with `Overflow` where the balance would leave
/// 128 bits.
pub fn add_to_collection(c: &mut BalanceMap, key: &String, value: u128) -> (r: Result<
    (),
    ExchangeError,
>)
    requires
        old(c).wf(),
    ensures
        final(c).wf(),
        spec_balance(old(c)@, key@) + value <= u128::MAX ==> r == Ok::<(), ExchangeError>(())
            && final(c)@ == old(c)@.insert(
            key@,
            (spec_balance(old(c)@, key@) + value) as u128,
        ),
        spec_balance(old(c)@, key@) + value > u128::MAX ==> r == Err::<(), ExchangeError>(
            ExchangeError::Overflow,
        ) && final(c)@ == old(c)@,
{
    let prev_value: u128 = match c.get(key) {
        Some(balance) => balance,
        None => 0,
    };
    if value > u128::MAX - prev_value {
        return Err(ExchangeError::Overflow);
    }
    c.insert(key, value + prev_value);
    Ok(())
}

/// The balance under `key`, zero where there is no entry.
pub open spec fn spec_balance(m: Map<Seq<char>, u128>, key: Seq<char>) -> u128 {
    if m.dom().contains(key) {
        m[key]
    } else {
        0
    }
}

/// Whether `root` is the square root of `value` rounded down.
pub open spec fn is_floor_sqrt(root: int, value: int) -> bool {
    0 <= root && root * root <= value < (root + 1) * (root + 1)
}

/// The square root of a nonnegative `value`, rounded down.
pub open spec fn floor_sqrt(value: int) -> int {
    choose|root: int| is_floor_sqrt(root, value)
}

/// A larger value never has a smaller rounded-down square root.
pub proof fn lemma_floor_sqrt_monotonic(r1: int, v1: int, r2: int, v2: int)
    requires
        is_floor_sqrt(r1, v1),
        is_floor_sqrt(r2, v2),
        v1 <= v2,
    ensures
        r1 <= r2,
{
    if r1 > r2 {
        assert((r2 + 1) * (r2 + 1) <= r1 * r1) by (nonlinear_arith)
            requires
                0 <= r2 + 1 <= r1,
        ;
    }
}

/// A value has only one rounded-down square root.
pub proof fn lemma_floor_sqrt_unique(root: int, value: int)
    requires
        is_floor_sqrt(root, value),
    ensures
        floor_sqrt(value) == root,
{
    let chosen = floor_sqrt(value);
    lemma_floor_sqrt_monotonic(root, value, chosen, value);
    lemma_floor_sqrt_monotonic(chosen, value, root, value);
}

/// Every nonnegative value has a rounded-down square root.
pub proof fn lemma_floor_sqrt_exists(value: int)
    requires
        0 <= value,
    ensures
        is_floor_sqrt(floor_sqrt(value), value),
    decreases value,
{
    if value == 0 {
        assert(is_floor_sqrt(0, 0));
    } else {
        lemma_floor_sqrt_exists(value - 1);
        let r = floor_sqrt(value - 1);
        if value < (r + 1) * (r + 1) {
            assert(is_floor_sqrt(r, value));
        } else {
            assert((r + 2) * (r + 2) > (r + 1) * (r + 1)) by (nonlinear_arith)
                requires
                    r >= 0,
            ;
            assert(is_floor_sqrt(r + 1, value));
        }
    }
}

/// The mean of a positive guess and the value divided by it is never below
/// the square root of the value.
proof fn lemma_newton_step(value: int, guess: int)
    requires
        0 <= value,
        0 < guess,
    ensures
        (value / guess + guess) / 2 >= 0,
        ((value / guess + guess) / 2 + 1) * ((value / guess + guess) / 2 + 1) > value,
{
    let q = value / guess;
    let n = (q + guess) / 2;
    vstd::arithmetic::div_mod::lemma_fundamental_div_mod(value, guess);
    vstd::arithmetic::div_mod::lemma_mod_bound(value, guess);
    vstd::arithmetic::div_mod::lemma_div_pos_is_pos(value, guess);
    assert(value == guess * q + value % guess);
    assert(value < (q + 1) * guess) by (nonlinear_arith)
        requires
            value == guess * q + value % guess,
            value % guess < guess,
    ;
    assert(2 * (n + 1) >= q + 1 + guess);
    assert((q + 1 + guess) * (q + 1 + guess) >= 4 * ((q + 1) * guess)) by (nonlinear_arith);
    assert((2 * (n + 1)) * (2 * (n + 1)) >= (q + 1 + guess) * (q + 1 + guess))
        by (nonlinear_arith)
        requires
            2 * (n + 1) >= q + 1 + guess,
            q + 1 + guess >= 0,
    ;
    assert((2 * (n + 1)) * (2 * (n + 1)) == 4 * ((n + 1) * (n + 1))) by (nonlinear_arith);
}

/// A guess that its own Newton step does not lower is at most the square root.
proof fn lemma_newton_fixpoint(value: int, res: int)
    requires
        0 <= value,
        0 < res,
        (value / res + res) / 2 >= res,
    ensures
        res * res <= value,
{
    let q = value / res;
    assert(q >= res);
    vstd::arithmetic::div_mod::lemma_fundamental_div_mod(value, res);
    vstd::arithmetic::div_mod::lemma_mod_bound(value, res);
    assert(res * res <= res * q) by (nonlinear_arith)
        requires
            q >= res,
            res > 0,
    ;
}

/// The quotient by a guess of at least two stays below two to the power 255.
proof fn lemma_quotient_small(value: int, guess: int)
    requires
        0 <= value < pow2_256(),
        2 <= guess,
    ensures
        0 <= value / guess < pow2_255(),
{
    vstd::arithmetic::div_mod::lemma_div_is_ordered_by_denominator(value, 2, guess);
    vstd::arithmetic::div_mod::lemma_div_pos_is_pos(value, guess);
    assert(pow2_256() == 2 * pow2_255()) by (nonlinear_arith)
        requires
            pow2_256() == crate::u256::pow2_128() * crate::u256::pow2_128(),
            pow2_255() == 0x8000_0000_0000_0000_0000_0000_0000_0000int * crate::u256::pow2_128(),
    ;
}

/// Square root of an unsigned integer, rounded down.
pub fn uint_sqrt(value: U256) -> (res: U256)
    ensures
        is_floor_sqrt(res@, value@),
        res@ == floor_sqrt(value@),
{
    proof {
        value.lemma_bounded();
        assert(pow2_256() == 2 * pow2_255()) by (nonlinear_arith)
            requires
                pow2_256() == crate::u256::pow2_128() * crate::u256::pow2_128(),
                pow2_255() == 0x8000_0000_0000_0000_0000_0000_0000_0000int
                    * crate::u256::pow2_128(),
        ;
    }
    let odd: bool = value.lo % 2 == 1;
    let half = value.halve();
    assert(odd == (value@ % 2 == 1)) by {
        assert(value@ == 2 * (value.hi as int * (crate::u256::pow2_128() / 2)) + value.lo as int)
            by (nonlinear_arith)
            requires
                value@ == value.hi as int * crate::u256::pow2_128() + value.lo as int,
                crate::u256::pow2_128() == 2 * (crate::u256::pow2_128() / 2),
        ;
    }
    let mut guess: U256 = half.checked_add(
        if odd {
            U256::one()
        } else {
            U256::zero()
        },
    ).unwrap();
    let mut res = value;
    assert(guess@ == (value@ + 1) / 2);
    proof {
        if value@ > 0 {
            assert(value@ / value@ == 1) by (nonlinear_arith)
                requires
                    value@ > 0,
            ;
            lemma_newton_step(value@, value@);
        }
        assert((value@ + 1) * (value@ + 1) > value@) by (nonlinear_arith)
            requires
                value@ >= 0,
        ;
    }
    while guess.lt(&res)
        invariant
            0 <= value@ < pow2_256(),
            pow2_256() == 2 * pow2_255(),
            0 <= guess@ <= pow2_255(),
            0 <= res@,
            (res@ + 1) * (res@ + 1) > value@,
            (guess@ + 1) * (guess@ + 1) > value@,
            res@ > 0 ==> guess@ == (value@ / res@ + res@) / 2,
            (res@ == 0) == (value@ == 0),
        decreases res@,
    {
        proof {
            if guess@ == 0 {
                assert((guess@ + 1) * (guess@ + 1) == 1) by (nonlinear_arith)
                    requires
                        guess@ == 0,
                ;
                assert(false);
            }
            if guess@ >= 2 {
                lemma_quotient_small(value@, guess@);
            } else {
                assert((guess@ + 1) * (guess@ + 1) == 4) by (nonlinear_arith)
                    requires
                        guess@ == 1,
                ;
                assert(value@ / guess@ == value@) by (nonlinear_arith)
                    requires
                        guess@ == 1,
                ;
            }
            lemma_newton_step(value@, guess@);
        }
        res = guess;
        let quotient = value.div_rem(guess).0;
        guess = quotient.checked_add(guess).unwrap().halve();
    }
    proof {
        if res@ > 0 {
            lemma_newton_fixpoint(value@, res@);
        } else {
            assert(res@ * res@ == 0) by (nonlinear_arith)
                requires
                    res@ == 0,
            ;
        }
        lemma_floor_sqrt_unique(res@, value@);
    }
    res
}

} // verus!
