//! What holds of a pool through every sequence of operations.

use crate::admin_fee::AdminFees;
use crate::balance_map::{lemma_map_sum_bounds, lemma_map_sum_insert};
use crate::errors::ExchangeError;
use crate::ledger::{spec_burn, spec_mint};
use crate::pool_state::{
    amount_for, fair_supply, fee_shares, lemma_amount_of_shares, lemma_share_of_reserve,
    lemma_swap_return_bounds, shares_for, spec_add_liquidity, spec_get_return, spec_mint_fees,
    spec_remove_liquidity, spec_return_at, spec_swap, spec_token_index, swap_return, PoolState,
};
use crate::utils::{
    floor_sqrt, lemma_floor_sqrt_exists, lemma_floor_sqrt_monotonic, INIT_SHARES_SUPPLY,
};
use vstd::prelude::*;

verus! {

/// Minting keeps the holdings finite and equal in sum to the total supply,
/// and changes the total supply by what was minted.
pub proof fn lemma_mint_keeps_sum(
    holdings: Map<Seq<char>, u128>,
    total: u128,
    account_id: Seq<char>,
    shares: u128,
)
    requires
        holdings.dom().finite(),
        crate::balance_map::map_sum(holdings) == total,
    ensures
        spec_mint(holdings, total, account_id, shares).1.dom().finite(),
        crate::balance_map::map_sum(spec_mint(holdings, total, account_id, shares).1) == spec_mint(
            holdings,
            total,
            account_id,
            shares,
        ).2,
        spec_mint(holdings, total, account_id, shares).0 is Ok ==> spec_mint(
            holdings,
            total,
            account_id,
            shares,
        ).2 == total + shares,
        spec_mint(holdings, total, account_id, shares).0 is Err ==> spec_mint(
            holdings,
            total,
            account_id,
            shares,
        ).1 == holdings && spec_mint(holdings, total, account_id, shares).2 == total,
{
    lemma_map_sum_bounds(holdings, account_id);
    if shares != 0 && total + shares <= u128::MAX {
        let previous = if holdings.dom().contains(account_id) {
            holdings[account_id]
        } else {
            0
        };
        lemma_map_sum_insert(holdings, account_id, (previous + shares) as u128);
    }
}

/// Burning keeps the holdings finite and equal in sum to the total supply,
/// and changes the total supply by what was burnt.
pub proof fn lemma_burn_keeps_sum(
    holdings: Map<Seq<char>, u128>,
    total: u128,
    account_id: Seq<char>,
    shares: u128,
)
    requires
        holdings.dom().finite(),
        crate::balance_map::map_sum(holdings) == total,
    ensures
        spec_burn(holdings, total, account_id, shares).1.dom().finite(),
        crate::balance_map::map_sum(spec_burn(holdings, total, account_id, shares).1) == spec_burn(
            holdings,
            total,
            account_id,
            shares,
        ).2,
        spec_burn(holdings, total, account_id, shares).0 is Ok ==> shares <= total && spec_burn(
            holdings,
            total,
            account_id,
            shares,
        ).2 == total - shares,
        spec_burn(holdings, total, account_id, shares).0 is Err ==> spec_burn(
            holdings,
            total,
            account_id,
            shares,
        ).1 == holdings && spec_burn(holdings, total, account_id, shares).2 == total,
{
    lemma_map_sum_bounds(holdings, account_id);
    if holdings.dom().contains(account_id) && holdings[account_id] >= shares {
        lemma_map_sum_insert(holdings, account_id, (holdings[account_id] - shares) as u128);
    }
}

/// Adding liquidity keeps a valid pool valid. A deposit that is taken mints
/// a positive number of shares, raises the total supply by exactly that
/// number, and takes of each token a positive amount that is no more than
/// was offered. A deposit that is refused changes nothing.
pub proof fn lemma_add_liquidity(s: PoolState, sender_id: Seq<char>, amounts: Seq<u128>)
    requires
        s.valid(),
    ensures
        spec_add_liquidity(s, sender_id, amounts).1.valid(),
        spec_add_liquidity(s, sender_id, amounts).0 matches Ok(minted) ==> {
            let after = spec_add_liquidity(s, sender_id, amounts).1;
            let taken = spec_add_liquidity(s, sender_id, amounts).2;
            &&& minted > 0
            &&& after.shares_total_supply == s.shares_total_supply + minted
            &&& taken.len() == 2
            &&& 0 < taken[0] <= amounts[0]
            &&& 0 < taken[1] <= amounts[1]
            &&& after.amounts[0] == s.amounts[0] + taken[0]
            &&& after.amounts[1] == s.amounts[1] + taken[1]
            &&& after.shares.dom().contains(sender_id)
            &&& after.shares[sender_id] >= minted
        },
        spec_add_liquidity(s, sender_id, amounts).0 is Err ==> spec_add_liquidity(
            s,
            sender_id,
            amounts,
        ).1 == s && spec_add_liquidity(s, sender_id, amounts).2 == amounts,
{
    if amounts.len() == 2 && amounts[0] != 0 && amounts[1] != 0 {
        let total = s.shares_total_supply;
        if total > 0 {
            let fair = fair_supply(s, amounts);
            let first = shares_for(amounts[0], s.amounts[0], total);
            let second = shares_for(amounts[1], s.amounts[1], total);
            assert(0 <= first && 0 <= second) by {
                assert(0 <= amounts[0] as int * total as int) by (nonlinear_arith);
                assert(0 <= amounts[1] as int * total as int) by (nonlinear_arith);
                vstd::arithmetic::div_mod::lemma_div_pos_is_pos(
                    amounts[0] as int * total as int,
                    s.amounts[0] as int,
                );
                vstd::arithmetic::div_mod::lemma_div_pos_is_pos(
                    amounts[1] as int * total as int,
                    s.amounts[1] as int,
                );
            }
            lemma_amount_of_shares(s.amounts[0] as int, fair, total as int, amounts[0] as int);
            lemma_amount_of_shares(s.amounts[1] as int, fair, total as int, amounts[1] as int);
        }
        let fair = if total == 0 {
            INIT_SHARES_SUPPLY as int
        } else {
            fair_supply(s, amounts)
        };
        if 0 < fair && total + fair <= u128::MAX {
            lemma_mint_keeps_sum(s.shares, total, sender_id, fair as u128);
            lemma_map_sum_bounds(s.shares, sender_id);
        }
    }
}

/// Removing liquidity keeps a valid pool valid. A withdrawal that is paid
/// lowers the total supply by exactly the shares burnt and each reserve by
/// what was paid, which is never more than the reserve. A withdrawal that is
/// refused changes nothing.
pub proof fn lemma_remove_liquidity(
    s: PoolState,
    sender_id: Seq<char>,
    shares: u128,
    min_amounts: Seq<u128>,
)
    requires
        s.valid(),
    ensures
        spec_remove_liquidity(s, sender_id, shares, min_amounts).1.valid(),
        spec_remove_liquidity(s, sender_id, shares, min_amounts).0 matches Ok(paid) ==> {
            let after = spec_remove_liquidity(s, sender_id, shares, min_amounts).1;
            &&& paid.len() == 2
            &&& after.shares_total_supply == s.shares_total_supply - shares
            &&& paid[0] <= s.amounts[0]
            &&& paid[1] <= s.amounts[1]
            &&& paid[0] >= min_amounts[0]
            &&& paid[1] >= min_amounts[1]
            &&& after.amounts[0] == s.amounts[0] - paid[0]
            &&& after.amounts[1] == s.amounts[1] - paid[1]
            &&& after.shares.dom().contains(sender_id)
        },
        spec_remove_liquidity(s, sender_id, shares, min_amounts).0 is Err ==> spec_remove_liquidity(
            s,
            sender_id,
            shares,
            min_amounts,
        ).1 == s,
{
    if min_amounts.len() == 2 && shares != 0 {
        let total = s.shares_total_supply;
        lemma_burn_keeps_sum(s.shares, total, sender_id, shares);
        if spec_burn(s.shares, total, sender_id, shares).0 is Ok {
            lemma_share_of_reserve(s.amounts[0] as int, shares as int, total as int);
            lemma_share_of_reserve(s.amounts[1] as int, shares as int, total as int);
        }
    }
}

/// The place of a token in a valid pool is one of its two places.
pub proof fn lemma_token_index(s: PoolState, token_id: Seq<char>)
    requires
        s.valid(),
    ensures
        spec_token_index(s.tokens, token_id) == if s.tokens[0] == token_id {
            Some(0int)
        } else if s.tokens[1] == token_id {
            Some(1int)
        } else {
            None
        },
{
    if s.tokens[0] == token_id {
        assert(0 <= 0 < s.tokens.len() && s.tokens[0] == token_id);
    } else if s.tokens[1] == token_id {
        assert(0 <= 1 < s.tokens.len() && s.tokens[1] == token_id);
    }
}

/// Minting the fee shares of a swap keeps the holdings finite and equal in
/// sum to the total supply, and never lowers the total supply.
pub proof fn lemma_mint_fees(
    shares: Map<Seq<char>, u128>,
    total_supply: u128,
    numerator: int,
    new_invariant: int,
    admin_fee: AdminFees,
)
    requires
        shares.dom().finite(),
        crate::balance_map::map_sum(shares) == total_supply,
    ensures
        spec_mint_fees(shares, total_supply, numerator, new_invariant, admin_fee) matches Some(
            after,
        ) ==> after.0.dom().finite() && crate::balance_map::map_sum(after.0) == after.1
            && after.1 >= total_supply,
{
    match fee_shares(numerator, new_invariant, admin_fee.exchange_fee) {
        None => {},
        Some(to_exchange) => {
            lemma_mint_keeps_sum(shares, total_supply, admin_fee.exchange_id@, to_exchange);
            let first = spec_mint(shares, total_supply, admin_fee.exchange_id@, to_exchange);
            if first.0 is Ok {
                match admin_fee.referral_id {
                    Some(referral_id) => {
                        if shares.dom().contains(referral_id@) {
                            match fee_shares(numerator, new_invariant, admin_fee.referral_fee) {
                                None => {},
                                Some(to_referrer) => {
                                    lemma_mint_keeps_sum(
                                        first.1,
                                        first.2,
                                        referral_id@,
                                        to_referrer,
                                    );
                                },
                            }
                        }
                    },
                    None => {},
                }
            }
        },
    }
}

/// A swap keeps a valid pool valid, and the square root of the product of
/// the reserves never falls, whatever the fee. A swap that is made pays out
/// at least the minimum asked for and less than the reserve it draws on, and
/// never lowers the total supply. A swap that is refused changes nothing.
pub proof fn lemma_swap(
    s: PoolState,
    token_in: Seq<char>,
    amount_in: u128,
    token_out: Seq<char>,
    min_amount_out: u128,
    admin_fee: AdminFees,
)
    requires
        s.valid(),
    ensures
        spec_swap(s, token_in, amount_in, token_out, min_amount_out, admin_fee).1.valid(),
        spec_swap(s, token_in, amount_in, token_out, min_amount_out, admin_fee).1.liquidity()
            >= s.liquidity(),
        spec_swap(s, token_in, amount_in, token_out, min_amount_out, admin_fee).0 matches Ok(
            amount_out,
        ) ==> {
            let after = spec_swap(s, token_in, amount_in, token_out, min_amount_out, admin_fee).1;
            let i = spec_token_index(s.tokens, token_in)->0;
            let o = spec_token_index(s.tokens, token_out)->0;
            &&& 0 <= i < 2 && 0 <= o < 2 && i != o
            &&& amount_in > 0
            &&& min_amount_out <= amount_out < s.amounts[o]
            &&& amount_out == swap_return(s.amounts[i], s.amounts[o], amount_in, s.total_fee)
            &&& after.amounts[i] == s.amounts[i] + amount_in
            &&& after.amounts[o] == s.amounts[o] - amount_out
            &&& after.shares_total_supply >= s.shares_total_supply
        },
        spec_swap(s, token_in, amount_in, token_out, min_amount_out, admin_fee).0 is Err ==> spec_swap(
            s,
            token_in,
            amount_in,
            token_out,
            min_amount_out,
            admin_fee,
        ).1 == s,
{
    lemma_token_index(s, token_in);
    lemma_token_index(s, token_out);
    let result = spec_swap(s, token_in, amount_in, token_out, min_amount_out, admin_fee);
    if result.0 is Ok {
        let amount_out = result.0->Ok_0;
        let i = spec_token_index(s.tokens, token_in)->0;
        let o = spec_token_index(s.tokens, token_out)->0;
        assert(spec_get_return(s, token_in, amount_in, token_out) == spec_return_at(
            s,
            i,
            amount_in,
            o,
        ));
        lemma_swap_return_bounds(s.amounts[i], s.amounts[o], amount_in, s.total_fee);
        let new_in = (s.amounts[i] + amount_in) as u128;
        let new_out = (s.amounts[o] - amount_out) as u128;
        let amounts = s.amounts.update(i, new_in).update(o, new_out);
        let before = s.amounts[0] as int * s.amounts[1] as int;
        let after = amounts[0] as int * amounts[1] as int;
        assert(before <= after) by {
            assert(s.amounts[i] as int * s.amounts[o] as int == s.amounts[o] as int
                * s.amounts[i] as int) by (nonlinear_arith);
            assert(new_in as int * new_out as int == new_out as int * new_in as int)
                by (nonlinear_arith);
        }
        assert(0 <= before) by (nonlinear_arith)
            requires
                before == s.amounts[0] as int * s.amounts[1] as int,
        ;
        lemma_floor_sqrt_exists(before);
        lemma_floor_sqrt_exists(after);
        lemma_floor_sqrt_monotonic(floor_sqrt(before), before, floor_sqrt(after), after);
        let prev_invariant = s.liquidity();
        let new_invariant = floor_sqrt(after);
        let numerator = (new_invariant - prev_invariant) * s.shares_total_supply as int;
        lemma_mint_fees(s.shares, s.shares_total_supply, numerator, new_invariant, admin_fee);
    }
}

/// No operation changes what was fixed when the pool was made: its tokens
/// and its fee. None takes a registration away, and none lowers a volume
/// counter.
pub proof fn lemma_fixed_at_creation(
    s: PoolState,
    account_id: Seq<char>,
    amounts: Seq<u128>,
    shares: u128,
    min_amounts: Seq<u128>,
    token_in: Seq<char>,
    amount_in: u128,
    token_out: Seq<char>,
    min_amount_out: u128,
    admin_fee: AdminFees,
)
    requires
        s.valid(),
    ensures
        ({
            let added = spec_add_liquidity(s, account_id, amounts).1;
            let removed = spec_remove_liquidity(s, account_id, shares, min_amounts).1;
            let swapped = spec_swap(s, token_in, amount_in, token_out, min_amount_out, admin_fee).1;
            &&& spec_keeps_fixed(s, added)
            &&& spec_keeps_fixed(s, removed)
            &&& spec_keeps_fixed(s, swapped)
        }),
{
    lemma_add_liquidity(s, account_id, amounts);
    lemma_remove_liquidity(s, account_id, shares, min_amounts);
    lemma_swap(s, token_in, amount_in, token_out, min_amount_out, admin_fee);
    lemma_token_index(s, token_in);
    lemma_token_index(s, token_out);
}

/// Whether `after` has the tokens and the fee of `before`, every holder that
/// `before` had registered, and volume counters that are no lower.
pub open spec fn spec_keeps_fixed(before: PoolState, after: PoolState) -> bool {
    &&& after.tokens == before.tokens
    &&& after.total_fee == before.total_fee
    &&& after.exchange_fee == before.exchange_fee
    &&& after.referral_fee == before.referral_fee
    &&& before.shares.dom().subset_of(after.shares.dom())
    &&& after.volumes.len() == before.volumes.len()
    &&& forall|i: int|
        0 <= i < before.volumes.len() ==> after.volumes[i].input >= before.volumes[i].input
            && after.volumes[i].output >= before.volumes[i].output
}

/// One deposit: who makes it and what is offered.
pub struct Deposit {
    /// The account that adds liquidity.
    pub sender_id: Seq<char>,
    /// The amounts offered, one per token.
    pub amounts: Seq<u128>,
}

/// The pool after a run of deposits, each applied to what the one before
/// left.
pub open spec fn after_deposits(s: PoolState, deposits: Seq<Deposit>) -> PoolState
    decreases deposits.len(),
{
    if deposits.len() == 0 {
        s
    } else {
        spec_add_liquidity(
            after_deposits(s, deposits.drop_last()),
            deposits.last().sender_id,
            deposits.last().amounts,
        ).1
    }
}

/// The shares minted by a run of deposits, those that were refused counting
/// for nothing.
pub open spec fn minted_by_deposits(s: PoolState, deposits: Seq<Deposit>) -> int
    decreases deposits.len(),
{
    if deposits.len() == 0 {
        0
    } else {
        minted_by_deposits(s, deposits.drop_last()) + match spec_add_liquidity(
            after_deposits(s, deposits.drop_last()),
            deposits.last().sender_id,
            deposits.last().amounts,
        ).0 {
            Ok(minted) => minted as int,
            Err(_) => 0,
        }
    }
}

/// Through any run of deposits the pool stays valid, and the total supply
/// grows by exactly the sum of the shares minted. On a pool that starts
/// without shares, the total supply is the sum of all shares minted.
pub proof fn lemma_deposits_add_up(s: PoolState, deposits: Seq<Deposit>)
    requires
        s.valid(),
    ensures
        after_deposits(s, deposits).valid(),
        after_deposits(s, deposits).shares_total_supply == s.shares_total_supply
            + minted_by_deposits(s, deposits),
        s.shares_total_supply == 0 ==> after_deposits(s, deposits).shares_total_supply
            == minted_by_deposits(s, deposits),
    decreases deposits.len(),
{
    if deposits.len() != 0 {
        lemma_deposits_add_up(s, deposits.drop_last());
        lemma_add_liquidity(
            after_deposits(s, deposits.drop_last()),
            deposits.last().sender_id,
            deposits.last().amounts,
        );
    }
}

/// Taking out at once the shares that a deposit earned, with no minimum,
/// always goes through, pays of each token no more than the deposit took
/// and so no more than was offered, and leaves each reserve no lower than it
/// was before the deposit.
pub proof fn lemma_round_trip(s: PoolState, sender_id: Seq<char>, amounts: Seq<u128>)
    requires
        s.valid(),
        spec_add_liquidity(s, sender_id, amounts).0 is Ok,
    ensures
        ({
            let added = spec_add_liquidity(s, sender_id, amounts);
            let removed = spec_remove_liquidity(
                added.1,
                sender_id,
                added.0->Ok_0,
                seq![0u128, 0u128],
            );
            &&& removed.0 is Ok
            &&& removed.0->Ok_0.len() == 2
            &&& removed.0->Ok_0[0] <= added.2[0] <= amounts[0]
            &&& removed.0->Ok_0[1] <= added.2[1] <= amounts[1]
            &&& removed.1.amounts[0] >= s.amounts[0]
            &&& removed.1.amounts[1] >= s.amounts[1]
            &&& removed.1.shares_total_supply == s.shares_total_supply
        }),
{
    let added = spec_add_liquidity(s, sender_id, amounts);
    let minted = added.0->Ok_0;
    let none = seq![0u128, 0u128];
    lemma_add_liquidity(s, sender_id, amounts);
    lemma_remove_liquidity(added.1, sender_id, minted, none);
    lemma_paid_back(s.amounts[0], added.2[0], minted, s.shares_total_supply);
    lemma_paid_back(s.amounts[1], added.2[1], minted, s.shares_total_supply);
}

/// The shares that a deposit earned stand, right after it, for no more than
/// the deposit took.
proof fn lemma_paid_back(reserve: u128, taken: u128, minted: u128, total_supply: u128)
    requires
        minted > 0,
        reserve + taken <= u128::MAX,
        total_supply + minted <= u128::MAX,
        total_supply > 0 ==> taken == amount_for(reserve, minted as int, total_supply),
        total_supply == 0 ==> reserve == 0,
    ensures
        amount_for((reserve + taken) as u128, minted as int, (total_supply + minted) as u128)
            <= taken,
{
    let r = reserve as int;
    let a = taken as int;
    let f = minted as int;
    let t = total_supply as int;
    let n = (r + a) * f;
    if t == 0 {
        vstd::arithmetic::div_mod::lemma_div_multiples_vanish(a, f);
        assert(n == f * a) by (nonlinear_arith)
            requires
                n == (r + a) * f,
                r == 0,
        ;
    } else {
        vstd::arithmetic::div_mod::lemma_fundamental_div_mod(r * f, t);
        vstd::arithmetic::div_mod::lemma_mod_bound(r * f, t);
        assert(r * f < (a + 1) * t) by (nonlinear_arith)
            requires
                r * f == t * a + (r * f) % t,
                (r * f) % t < t,
        ;
        assert(n < (a + 1) * (t + f)) by (nonlinear_arith)
            requires
                n == (r + a) * f,
                r * f < (a + 1) * t,
                f > 0,
        ;
        assert(0 <= n) by (nonlinear_arith)
            requires
                n == (r + a) * f,
                0 <= r,
                0 <= a,
                0 < f,
        ;
        vstd::arithmetic::div_mod::lemma_fundamental_div_mod(n, t + f);
        vstd::arithmetic::div_mod::lemma_mod_bound(n, t + f);
        let q = n / (t + f);
        assert(q <= a) by (nonlinear_arith)
            requires
                (t + f) * q <= n,
                n < (a + 1) * (t + f),
                t + f > 0,
        ;
    }
}

/// An operation of size zero is always refused and changes nothing: a
/// deposit that offers nothing of a token, a withdrawal of no shares, and a
/// swap of nothing.
pub proof fn lemma_zero_size_refused(
    s: PoolState,
    account_id: Seq<char>,
    amounts: Seq<u128>,
    min_amounts: Seq<u128>,
    token_in: Seq<char>,
    token_out: Seq<char>,
    min_amount_out: u128,
    admin_fee: AdminFees,
)
    requires
        s.valid(),
    ensures
        amounts.len() == 2 && (amounts[0] == 0 || amounts[1] == 0) ==> spec_add_liquidity(
            s,
            account_id,
            amounts,
        ) == (Err::<u128, ExchangeError>(ExchangeError::ZeroAmount), s, amounts),
        min_amounts.len() == 2 ==> spec_remove_liquidity(s, account_id, 0, min_amounts) == (
            Err::<Seq<u128>, ExchangeError>(ExchangeError::ZeroShares),
            s,
        ),
        spec_swap(s, token_in, 0, token_out, min_amount_out, admin_fee).0 is Err,
        spec_swap(s, token_in, 0, token_out, min_amount_out, admin_fee).1 == s,
        spec_token_index(s.tokens, token_in) is Some && spec_token_index(s.tokens, token_out) is Some
            && token_in != token_out ==> spec_swap(
            s,
            token_in,
            0,
            token_out,
            min_amount_out,
            admin_fee,
        ).0 == Err::<u128, ExchangeError>(ExchangeError::Invalid),
{
    lemma_token_index(s, token_in);
    lemma_token_index(s, token_out);
}

/// The minimum that a swap asks for decides in one place only: where the
/// pool can name a price, the swap is refused with `MinAmount` exactly when
/// the price is below the minimum. So a minimum equal to the price passes,
/// and one unit more is refused.
pub proof fn lemma_min_amount_boundary(
    s: PoolState,
    token_in: Seq<char>,
    amount_in: u128,
    token_out: Seq<char>,
    min_amount_out: u128,
    admin_fee: AdminFees,
)
    requires
        s.valid(),
        token_in != token_out,
        spec_get_return(s, token_in, amount_in, token_out) is Ok,
    ensures
        ({
            let price = spec_get_return(s, token_in, amount_in, token_out)->Ok_0;
            let at = |minimum: u128| spec_swap(s, token_in, amount_in, token_out, minimum, admin_fee);
            &&& at(min_amount_out).0 == Err::<u128, ExchangeError>(ExchangeError::MinAmount) <==> price
                < min_amount_out
            &&& min_amount_out <= price ==> at(min_amount_out) == at(price)
            &&& at(price).0 != Err::<u128, ExchangeError>(ExchangeError::MinAmount)
            &&& at(price).0 is Ok ==> at(price).0 == Ok::<u128, ExchangeError>(price)
            &&& price < u128::MAX ==> at((price + 1) as u128) == (
                Err::<u128, ExchangeError>(ExchangeError::MinAmount),
                s,
            )
        }),
{
}

/// A referrer who is not registered counts for nothing: the swap does what
/// it would do with no referrer named. It mints to the exchange alone, and
/// the referrer has no entry afterwards unless the referrer is the exchange
/// itself.
pub proof fn lemma_unregistered_referral(
    s: PoolState,
    token_in: Seq<char>,
    amount_in: u128,
    token_out: Seq<char>,
    min_amount_out: u128,
    admin_fee: AdminFees,
)
    requires
        s.valid(),
        admin_fee.referral_id matches Some(referral_id) && !s.shares.dom().contains(referral_id@),
    ensures
        ({
            let without = AdminFees { referral_id: None, ..admin_fee };
            let result = spec_swap(s, token_in, amount_in, token_out, min_amount_out, admin_fee);
            let referral_id = admin_fee.referral_id->0;
            &&& result == spec_swap(s, token_in, amount_in, token_out, min_amount_out, without)
            &&& referral_id@ != admin_fee.exchange_id@ ==> !result.1.shares.dom().contains(
                referral_id@,
            )
            &&& result.0 is Ok ==> {
                let i = spec_token_index(s.tokens, token_in)->0;
                let numerator = (result.1.liquidity() - s.liquidity()) * s.shares_total_supply as int;
                let to_exchange = fee_shares(
                    numerator,
                    result.1.liquidity(),
                    admin_fee.exchange_fee,
                )->0;
                &&& result.1.shares_total_supply == s.shares_total_supply + to_exchange
                &&& result.1.shares == spec_mint(
                    s.shares,
                    s.shares_total_supply,
                    admin_fee.exchange_id@,
                    to_exchange,
                ).1
            }
        }),
{
    lemma_swap(s, token_in, amount_in, token_out, min_amount_out, admin_fee);
    lemma_token_index(s, token_in);
    lemma_token_index(s, token_out);
}

/// Adding liquidity out of deposits moves tokens and makes none: what
/// enters each reserve is what leaves the deposits of that token.
pub proof fn lemma_add_liquidity_conserves(
    pool: PoolState,
    deposits: Map<Seq<char>, u128>,
    sender_id: Seq<char>,
    amounts: Seq<u128>,
    min_amounts: Option<Vec<u128>>,
)
    requires
        pool.valid(),
        crate::exchange::spec_add_liquidity(pool, deposits, sender_id, amounts, min_amounts).0 is Ok,
    ensures
        ({
            let done = crate::exchange::spec_add_liquidity(
                pool,
                deposits,
                sender_id,
                amounts,
                min_amounts,
            );
            forall|i: int|
                0 <= i < 2 ==> deposits.dom().contains(#[trigger] pool.tokens[i])
                    && done.2.dom().contains(pool.tokens[i]) && done.1.amounts[i] - pool.amounts[i]
                    == deposits[pool.tokens[i]] - done.2[pool.tokens[i]]
        }),
{
    lemma_add_liquidity(pool, sender_id, amounts);
}

/// Removing liquidity into deposits moves tokens and makes none: what leaves
/// each reserve is what the deposits of that token gain.
pub proof fn lemma_remove_liquidity_conserves(
    pool: PoolState,
    deposits: Map<Seq<char>, u128>,
    sender_id: Seq<char>,
    shares: u128,
    min_amounts: Seq<u128>,
)
    requires
        pool.valid(),
        crate::exchange::spec_remove_liquidity(pool, deposits, sender_id, shares, min_amounts).0
            is Ok,
    ensures
        ({
            let done = crate::exchange::spec_remove_liquidity(
                pool,
                deposits,
                sender_id,
                shares,
                min_amounts,
            );
            forall|i: int|
                0 <= i < 2 ==> done.2.dom().contains(#[trigger] pool.tokens[i]) && pool.amounts[i]
                    - done.1.amounts[i] == done.2[pool.tokens[i]] - crate::utils::spec_balance(
                    deposits,
                    pool.tokens[i],
                )
        }),
{
    lemma_remove_liquidity(pool, sender_id, shares, min_amounts);
}

/// A swap out of deposits moves tokens and makes none: the deposits lose
/// what the pool gains of the token paid in, and gain what the pool loses of
/// the token paid out.
pub proof fn lemma_swap_conserves(
    pool: PoolState,
    deposits: Map<Seq<char>, u128>,
    token_in: Seq<char>,
    amount_in: u128,
    token_out: Seq<char>,
    min_amount_out: u128,
    admin_fee: AdminFees,
)
    requires
        pool.valid(),
        crate::exchange::spec_swap(
            pool,
            deposits,
            token_in,
            amount_in,
            token_out,
            min_amount_out,
            admin_fee,
        ).0 is Ok,
    ensures
        ({
            let done = crate::exchange::spec_swap(
                pool,
                deposits,
                token_in,
                amount_in,
                token_out,
                min_amount_out,
                admin_fee,
            );
            let i = spec_token_index(pool.tokens, token_in)->0;
            let o = spec_token_index(pool.tokens, token_out)->0;
            &&& 0 <= i < 2 && 0 <= o < 2 && i != o
            &&& pool.tokens[i] == token_in && pool.tokens[o] == token_out
            &&& deposits.dom().contains(token_in) && done.2.dom().contains(token_in)
            &&& done.2.dom().contains(token_out)
            &&& done.1.amounts[i] - pool.amounts[i] == deposits[token_in] - done.2[token_in]
            &&& pool.amounts[o] - done.1.amounts[o] == done.2[token_out]
                - crate::utils::spec_balance(deposits, token_out)
        }),
{
    lemma_swap(pool, token_in, amount_in, token_out, min_amount_out, admin_fee);
    lemma_token_index(pool, token_in);
    lemma_token_index(pool, token_out);
}

} // verus!
