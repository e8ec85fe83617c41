//! What a pool holds and what each operation does to it, as mathematics.

use crate::admin_fee::AdminFees;
use crate::balance_map::{entries_to_map, entry_keys, entry_values, map_sum, seq_sum};
use crate::errors::ExchangeError;
use crate::ledger::{spec_burn, spec_holdings_fit, spec_mint};
use crate::u256::{pow2_128, pow2_256};
use crate::utils::{floor_sqrt, SwapVolume, FEE_DIVISOR, INIT_SHARES_SUPPLY, NUM_TOKENS};
use vstd::prelude::*;

verus! {

/// What a pool holds, as mathematical values.
pub struct PoolState {
    /// The names of the two tokens, in the order given at creation.
    pub tokens: Seq<Seq<char>>,
    /// The pooled balance of each token.
    pub amounts: Seq<u128>,
    /// The volume swapped in through each token.
    pub volumes: Seq<SwapVolume>,
    /// The fee charged on a swap, in parts of the fee divisor.
    pub total_fee: u32,
    /// Kept for compatibility; not used.
    pub exchange_fee: u32,
    /// Kept for compatibility; not used.
    pub referral_fee: u32,
    /// The shares of each registered liquidity provider.
    pub shares: Map<Seq<char>, u128>,
    /// The number of shares in existence.
    pub shares_total_supply: u128,
}

impl PoolState {
    /// What holds of every pool: it has two distinct tokens, a fee below the
    /// divisor, holdings that add up to the total supply, and either no
    /// shares and empty reserves or some shares and two positive reserves.
    pub open spec fn valid(self) -> bool {
        &&& self.tokens.len() == NUM_TOKENS
        &&& self.amounts.len() == NUM_TOKENS
        &&& self.volumes.len() == NUM_TOKENS
        &&& self.tokens[0] != self.tokens[1]
        &&& self.total_fee < FEE_DIVISOR
        &&& self.shares.dom().finite()
        &&& map_sum(self.shares) == self.shares_total_supply
        &&& self.shares_total_supply == 0 ==> self.amounts[0] == 0 && self.amounts[1] == 0
        &&& self.shares_total_supply > 0 ==> self.amounts[0] > 0 && self.amounts[1] > 0
    }

    /// The pool's invariant: the square root of the product of the reserves,
    /// rounded down.
    pub open spec fn liquidity(self) -> int {
        floor_sqrt(self.amounts[0] as int * self.amounts[1] as int)
    }
}

/// The names of a list of accounts.
pub open spec fn names(ids: Seq<String>) -> Seq<Seq<char>> {
    Seq::new(ids.len(), |i: int| ids[i]@)
}

/// The place of a token in a pool: the first place that carries its name.
pub open spec fn spec_token_index(tokens: Seq<Seq<char>>, token_id: Seq<char>) -> Option<int> {
    if exists|i: int| 0 <= i < tokens.len() && tokens[i] == token_id {
        Some(
            choose|i: int|
                0 <= i < tokens.len() && tokens[i] == token_id && forall|j: int|
                    0 <= j < i ==> tokens[j] != token_id,
        )
    } else {
        None
    }
}

/// What creating a pool gives: the new pool's state, or why it is refused.
pub open spec fn spec_new(
    token_account_ids: Seq<Seq<char>>,
    total_fee: u32,
    exchange_fee: u32,
    referral_fee: u32,
) -> Result<PoolState, ExchangeError> {
    if total_fee >= FEE_DIVISOR {
        Err(ExchangeError::FeeTooLarge)
    } else if token_account_ids.len() != NUM_TOKENS {
        Err(ExchangeError::ShouldHaveTwoTokens)
    } else if token_account_ids[0] == token_account_ids[1] {
        Err(ExchangeError::DuplicateTokens)
    } else {
        Ok(
            PoolState {
                tokens: token_account_ids,
                amounts: seq![0u128, 0u128],
                volumes: seq![
                    SwapVolume { input: 0, output: 0 },
                    SwapVolume { input: 0, output: 0 },
                ],
                total_fee,
                exchange_fee,
                referral_fee,
                shares: Map::empty(),
                shares_total_supply: 0,
            },
        )
    }
}

/// The state that the parts of a pool stand for, or `None` where they are
/// not the parts of a pool.
pub open spec fn spec_from_parts(
    token_account_ids: Seq<Seq<char>>,
    amounts: Seq<u128>,
    volumes: Seq<SwapVolume>,
    total_fee: u32,
    exchange_fee: u32,
    referral_fee: u32,
    shares: Seq<(String, u128)>,
) -> Option<PoolState> {
    let s = PoolState {
        tokens: token_account_ids,
        amounts,
        volumes,
        total_fee,
        exchange_fee,
        referral_fee,
        shares: entries_to_map(entry_keys(shares), entry_values(shares)),
        shares_total_supply: seq_sum(entry_values(shares)) as u128,
    };
    if spec_holdings_fit(shares) && s.valid() {
        Some(s)
    } else {
        None
    }
}

/// The shares that a deposit of `amount` of a token is worth, where the pool
/// holds `reserve` of it and `total_supply` shares exist.
pub open spec fn shares_for(amount: u128, reserve: u128, total_supply: u128) -> int {
    amount as int * total_supply as int / reserve as int
}

/// The shares that a deposit earns: what its less generous side is worth.
pub open spec fn fair_supply(s: PoolState, amounts: Seq<u128>) -> int {
    let first = shares_for(amounts[0], s.amounts[0], s.shares_total_supply);
    let second = shares_for(amounts[1], s.amounts[1], s.shares_total_supply);
    if first <= second {
        first
    } else {
        second
    }
}

/// The part of a reserve that `shares` out of `total_supply` shares stand for.
pub open spec fn amount_for(reserve: u128, shares: int, total_supply: u128) -> int {
    reserve as int * shares / total_supply as int
}

/// What adding liquidity does: the shares minted or the refusal, the pool
/// after the call, and the amounts that the pool took.
pub open spec fn spec_add_liquidity(s: PoolState, sender_id: Seq<char>, amounts: Seq<u128>) -> (
    Result<u128, ExchangeError>,
    PoolState,
    Seq<u128>,
) {
    if amounts.len() != NUM_TOKENS {
        (Err(ExchangeError::WrongTokenCount), s, amounts)
    } else if amounts[0] == 0 || amounts[1] == 0 {
        (Err(ExchangeError::ZeroAmount), s, amounts)
    } else {
        let fair = if s.shares_total_supply == 0 {
            INIT_SHARES_SUPPLY as int
        } else {
            fair_supply(s, amounts)
        };
        let taken = if s.shares_total_supply == 0 {
            seq![amounts[0] as int, amounts[1] as int]
        } else {
            seq![
                amount_for(s.amounts[0], fair, s.shares_total_supply),
                amount_for(s.amounts[1], fair, s.shares_total_supply),
            ]
        };
        if fair == 0 {
            (Err(ExchangeError::ZeroShares), s, amounts)
        } else if taken[0] == 0 || taken[1] == 0 {
            (Err(ExchangeError::ZeroAmount), s, amounts)
        } else if s.shares_total_supply + fair > u128::MAX || s.amounts[0] + taken[0] > u128::MAX
            || s.amounts[1] + taken[1] > u128::MAX {
            (Err(ExchangeError::Overflow), s, amounts)
        } else {
            let minted = spec_mint(s.shares, s.shares_total_supply, sender_id, fair as u128);
            (
                Ok(fair as u128),
                PoolState {
                    amounts: seq![
                        (s.amounts[0] + taken[0]) as u128,
                        (s.amounts[1] + taken[1]) as u128,
                    ],
                    shares: minted.1,
                    shares_total_supply: minted.2,
                    ..s
                },
                seq![taken[0] as u128, taken[1] as u128],
            )
        }
    }
}

/// What removing liquidity does: the amounts paid out or the refusal, and
/// the pool after the call.
pub open spec fn spec_remove_liquidity(
    s: PoolState,
    sender_id: Seq<char>,
    shares: u128,
    min_amounts: Seq<u128>,
) -> (Result<Seq<u128>, ExchangeError>, PoolState) {
    if min_amounts.len() != NUM_TOKENS {
        (Err(ExchangeError::WrongTokenCount), s)
    } else if shares == 0 {
        (Err(ExchangeError::ZeroShares), s)
    } else {
        let burnt = spec_burn(s.shares, s.shares_total_supply, sender_id, shares);
        let paid = seq![
            amount_for(s.amounts[0], shares as int, s.shares_total_supply),
            amount_for(s.amounts[1], shares as int, s.shares_total_supply),
        ];
        match burnt.0 {
            Err(e) => (Err(e), s),
            Ok(_) => if paid[0] < min_amounts[0] || paid[1] < min_amounts[1] {
                (Err(ExchangeError::MinAmount), s)
            } else {
                (
                    Ok(seq![paid[0] as u128, paid[1] as u128]),
                    PoolState {
                        amounts: seq![
                            (s.amounts[0] - paid[0]) as u128,
                            (s.amounts[1] - paid[1]) as u128,
                        ],
                        shares: burnt.1,
                        shares_total_supply: burnt.2,
                        ..s
                    },
                )
            },
        }
    }
}

/// What is left of an amount paid in once the swap fee is taken, scaled by
/// the fee divisor.
pub open spec fn amount_with_fee(amount_in: u128, total_fee: u32) -> int {
    amount_in as int * (FEE_DIVISOR as int - total_fee as int)
}

/// The constant-product price: what a pool with the reserves `in_balance`
/// and `out_balance` pays out for `amount_in`.
pub open spec fn swap_return(in_balance: u128, out_balance: u128, amount_in: u128, total_fee: u32) -> int {
    amount_with_fee(amount_in, total_fee) * out_balance as int / (FEE_DIVISOR as int
        * in_balance as int + amount_with_fee(amount_in, total_fee))
}

/// What a pool would pay out for `amount_in` of `token_in`, or why it
/// cannot say.
pub open spec fn spec_get_return(
    s: PoolState,
    token_in: Seq<char>,
    amount_in: u128,
    token_out: Seq<char>,
) -> Result<u128, ExchangeError> {
    match (spec_token_index(s.tokens, token_in), spec_token_index(s.tokens, token_out)) {
        (Some(i), Some(o)) => spec_return_at(s, i, amount_in, o),
        _ => Err(ExchangeError::MissingToken),
    }
}

/// What a pool pays out for `amount_in` of the token at place `i`, in the
/// token at place `o`.
pub open spec fn spec_return_at(s: PoolState, i: int, amount_in: u128, o: int) -> Result<
    u128,
    ExchangeError,
> {
    if s.amounts[i] == 0 || s.amounts[o] == 0 || i == o || amount_in == 0 {
        Err(ExchangeError::Invalid)
    } else if amount_with_fee(amount_in, s.total_fee) * s.amounts[o] as int >= pow2_256() {
        Err(ExchangeError::Overflow)
    } else {
        Ok(swap_return(s.amounts[i], s.amounts[o], amount_in, s.total_fee) as u128)
    }
}

/// The new shares that a fee of `fee` parts of the divisor earns on the
/// growth `numerator` of the invariant, scaled by the total supply. `None`
/// where the number cannot be had: the divisor rounds down to zero, or the
/// result leaves 128 bits.
pub open spec fn fee_shares(numerator: int, new_invariant: int, fee: u32) -> Option<u128> {
    if fee == 0 || numerator <= 0 {
        Some(0)
    } else {
        let denominator = new_invariant * FEE_DIVISOR as int / fee as int;
        if denominator == 0 || numerator / denominator > u128::MAX {
            None
        } else {
            Some((numerator / denominator) as u128)
        }
    }
}

/// The ledger after the fee shares of a swap are minted, first to the
/// exchange and then to the referrer if one is named and was registered
/// before the swap. `None` where a number of shares cannot be had or the
/// total supply would leave 128 bits.
pub open spec fn spec_mint_fees(
    shares: Map<Seq<char>, u128>,
    total_supply: u128,
    numerator: int,
    new_invariant: int,
    admin_fee: AdminFees,
) -> Option<(Map<Seq<char>, u128>, u128)> {
    match fee_shares(numerator, new_invariant, admin_fee.exchange_fee) {
        None => None,
        Some(to_exchange) => {
            let first = spec_mint(shares, total_supply, admin_fee.exchange_id@, to_exchange);
            if first.0 is Err {
                None
            } else {
                match admin_fee.referral_id {
                    Some(referral_id) if shares.dom().contains(referral_id@) => {
                        match fee_shares(numerator, new_invariant, admin_fee.referral_fee) {
                            None => None,
                            Some(to_referrer) => {
                                let second = spec_mint(first.1, first.2, referral_id@, to_referrer);
                                if second.0 is Err {
                                    None
                                } else {
                                    Some((second.1, second.2))
                                }
                            },
                        }
                    },
                    _ => Some((first.1, first.2)),
                }
            }
        },
    }
}

/// A volume counter after one more swap; a counter that is full stays full.
pub open spec fn spec_add_volume(volume: SwapVolume, amount_in: u128, amount_out: u128) -> SwapVolume {
    SwapVolume {
        input: if volume.input + amount_in > u128::MAX {
            u128::MAX
        } else {
            (volume.input + amount_in) as u128
        },
        output: if volume.output + amount_out > u128::MAX {
            u128::MAX
        } else {
            (volume.output + amount_out) as u128
        },
    }
}

/// What a swap does: the amount paid out or the refusal, and the pool after
/// the call.
pub open spec fn spec_swap(
    s: PoolState,
    token_in: Seq<char>,
    amount_in: u128,
    token_out: Seq<char>,
    min_amount_out: u128,
    admin_fee: AdminFees,
) -> (Result<u128, ExchangeError>, PoolState) {
    if token_in == token_out {
        (Err(ExchangeError::SameTokenSwap), s)
    } else {
        match spec_get_return(s, token_in, amount_in, token_out) {
            Err(e) => (Err(e), s),
            Ok(amount_out) => {
                let i = spec_token_index(s.tokens, token_in)->0;
                let o = spec_token_index(s.tokens, token_out)->0;
                if amount_out < min_amount_out {
                    (Err(ExchangeError::MinAmount), s)
                } else if s.amounts[i] + amount_in > u128::MAX {
                    (Err(ExchangeError::Overflow), s)
                } else {
                    let amounts = s.amounts.update(i, (s.amounts[i] + amount_in) as u128).update(
                        o,
                        (s.amounts[o] - amount_out) as u128,
                    );
                    let prev_invariant = s.liquidity();
                    let new_invariant = floor_sqrt(amounts[0] as int * amounts[1] as int);
                    let numerator = (new_invariant - prev_invariant) * s.shares_total_supply as int;
                    match spec_mint_fees(
                        s.shares,
                        s.shares_total_supply,
                        numerator,
                        new_invariant,
                        admin_fee,
                    ) {
                        None => (Err(ExchangeError::Overflow), s),
                        Some((shares, shares_total_supply)) => (
                            Ok(amount_out),
                            PoolState {
                                amounts,
                                volumes: s.volumes.update(
                                    i,
                                    spec_add_volume(s.volumes[i], amount_in, amount_out),
                                ),
                                shares,
                                shares_total_supply,
                                ..s
                            },
                        ),
                    }
                }
            },
        }
    }
}

/// What minting shares outside a deposit or a swap does: the outcome and
/// the pool after the call.
pub open spec fn spec_mint_shares(s: PoolState, account_id: Seq<char>, shares: u128) -> (
    Result<(), ExchangeError>,
    PoolState,
) {
    if shares == 0 {
        (Ok(()), s)
    } else if s.shares_total_supply == 0 {
        (Err(ExchangeError::NoLiquidity), s)
    } else {
        let minted = spec_mint(s.shares, s.shares_total_supply, account_id, shares);
        (minted.0, PoolState { shares: minted.1, shares_total_supply: minted.2, ..s })
    }
}

/// What a withdrawal of `shares` would pay out, or `None` where an amount
/// leaves 128 bits. From a pool without shares it pays nothing.
pub open spec fn spec_predict_remove_liquidity(s: PoolState, shares: u128) -> Option<Seq<u128>> {
    if s.shares_total_supply == 0 {
        Some(seq![0u128, 0u128])
    } else {
        let first = amount_for(s.amounts[0], shares as int, s.shares_total_supply);
        let second = amount_for(s.amounts[1], shares as int, s.shares_total_supply);
        if first > u128::MAX || second > u128::MAX {
            None
        } else {
            Some(seq![first as u128, second as u128])
        }
    }
}

/// Shares worth no more than a deposit stand for no more than the deposit.
pub proof fn lemma_amount_of_shares(reserve: int, shares: int, total_supply: int, amount: int)
    requires
        reserve > 0,
        total_supply > 0,
        0 <= amount < pow2_128(),
        total_supply < pow2_128(),
        0 <= shares <= amount * total_supply / reserve,
    ensures
        0 <= shares * reserve <= amount * total_supply < pow2_256(),
        0 <= reserve * shares / total_supply <= amount,
{
    let n = amount * total_supply;
    assert(0 <= n) by (nonlinear_arith)
        requires
            n == amount * total_supply,
            amount >= 0,
            total_supply > 0,
    ;
    vstd::arithmetic::div_mod::lemma_fundamental_div_mod(n, reserve);
    vstd::arithmetic::div_mod::lemma_mod_bound(n, reserve);
    assert(reserve * (n / reserve) <= n);
    assert(shares * reserve <= reserve * (n / reserve)) by (nonlinear_arith)
        requires
            0 <= shares <= n / reserve,
            reserve > 0,
    ;
    assert(0 <= shares * reserve) by (nonlinear_arith)
        requires
            0 <= shares,
            reserve > 0,
    ;
    assert(n < pow2_128() * pow2_128()) by (nonlinear_arith)
        requires
            n == amount * total_supply,
            0 <= amount < pow2_128(),
            0 < total_supply < pow2_128(),
    ;
    assert(shares * reserve == reserve * shares) by (nonlinear_arith);
    vstd::arithmetic::div_mod::lemma_div_is_ordered(reserve * shares, n, total_supply);
    vstd::arithmetic::div_mod::lemma_div_multiples_vanish(amount, total_supply);
    assert(amount * total_supply == total_supply * amount) by (nonlinear_arith);
    assert(n / total_supply == amount);
    assert(0 <= reserve * shares);
    vstd::arithmetic::div_mod::lemma_div_pos_is_pos(reserve * shares, total_supply);
}

/// Some of the shares stand for part of a reserve, all of them for all of it.
pub proof fn lemma_share_of_reserve(reserve: int, shares: int, total_supply: int)
    requires
        0 <= reserve,
        0 < shares <= total_supply,
    ensures
        0 <= reserve * shares / total_supply <= reserve,
        shares == total_supply ==> reserve * shares / total_supply == reserve,
        shares < total_supply && reserve > 0 ==> reserve * shares / total_supply < reserve,
{
    let n = reserve * shares;
    let q = n / total_supply;
    assert(0 <= n <= total_supply * reserve) by (nonlinear_arith)
        requires
            n == reserve * shares,
            0 <= reserve,
            0 < shares <= total_supply,
    ;
    vstd::arithmetic::div_mod::lemma_div_pos_is_pos(n, total_supply);
    vstd::arithmetic::div_mod::lemma_div_is_ordered(n, total_supply * reserve, total_supply);
    vstd::arithmetic::div_mod::lemma_div_multiples_vanish(reserve, total_supply);
    if shares == total_supply {
        assert(n == total_supply * reserve) by (nonlinear_arith)
            requires
                n == reserve * shares,
                shares == total_supply,
        ;
    }
    if shares < total_supply && reserve > 0 {
        assert(n < total_supply * reserve) by (nonlinear_arith)
            requires
                n == reserve * shares,
                0 < reserve,
                0 < shares < total_supply,
        ;
        vstd::arithmetic::div_mod::lemma_fundamental_div_mod(n, total_supply);
        vstd::arithmetic::div_mod::lemma_mod_bound(n, total_supply);
        assert(q < reserve) by (nonlinear_arith)
            requires
                total_supply * q <= n,
                n < total_supply * reserve,
                total_supply > 0,
        ;
    }
}

/// A swap pays out less than the reserve it draws on, and the product of the
/// reserves does not fall.
pub proof fn lemma_swap_return_bounds(in_balance: u128, out_balance: u128, amount_in: u128, total_fee: u32)
    requires
        in_balance > 0,
        out_balance > 0,
        amount_in > 0,
        total_fee < FEE_DIVISOR,
    ensures
        0 <= swap_return(in_balance, out_balance, amount_in, total_fee) < out_balance,
        in_balance as int * out_balance as int <= (in_balance + amount_in) * (out_balance
            - swap_return(in_balance, out_balance, amount_in, total_fee)),
{
    let x = in_balance as int;
    let y = out_balance as int;
    let a = amount_in as int;
    let d = FEE_DIVISOR as int;
    let keep = d - total_fee as int;
    let ae = amount_with_fee(amount_in, total_fee);
    let den = d * x + ae;
    let num = ae * y;
    let out = num / den;
    assert(ae == a * keep);
    assert(0 < ae <= a * d) by (nonlinear_arith)
        requires
            ae == a * keep,
            0 < a,
            0 < keep <= d,
    ;
    assert(0 < d * x) by (nonlinear_arith)
        requires
            0 < d,
            0 < x,
    ;
    assert(0 <= num < den * y) by (nonlinear_arith)
        requires
            num == ae * y,
            den == d * x + ae,
            0 < d * x,
            0 < ae,
            0 < y,
    ;
    vstd::arithmetic::div_mod::lemma_fundamental_div_mod(num, den);
    vstd::arithmetic::div_mod::lemma_mod_bound(num, den);
    vstd::arithmetic::div_mod::lemma_div_pos_is_pos(num, den);
    assert(out < y) by (nonlinear_arith)
        requires
            den * out <= num,
            num < den * y,
            den > 0,
    ;
    // out * (d * x) <= ae * (y - out) <= a * d * (y - out)
    assert(out * (d * x) <= ae * (y - out)) by (nonlinear_arith)
        requires
            den * out <= ae * y,
            den == d * x + ae,
    ;
    assert(ae * (y - out) <= (a * d) * (y - out)) by (nonlinear_arith)
        requires
            ae <= a * d,
            0 <= y - out,
    ;
    assert(d * (x * out) <= d * (a * (y - out))) by (nonlinear_arith)
        requires
            out * (d * x) <= (a * d) * (y - out),
    ;
    assert(x * out <= a * (y - out)) by (nonlinear_arith)
        requires
            d * (x * out) <= d * (a * (y - out)),
            d > 0,
    ;
    assert(x * y <= (x + a) * (y - out)) by (nonlinear_arith)
        requires
            x * out <= a * (y - out),
    ;
}

} // verus!
