//! What a call to the exchange does to a pool and to the caller's deposits
//! together. Either both change or neither does.

use crate::account::{spec_deposit, spec_withdraw, Account};
use crate::admin_fee::AdminFees;
use crate::errors::ExchangeError;
use crate::pool::Pool;
use crate::pool_state::{names, PoolState};
use crate::utils::{check_min_amounts, clone_amounts, spec_below_minimum};
use vstd::prelude::*;

verus! {

/// The error of a refused step.
pub open spec fn spec_error(step: Result<(), ExchangeError>) -> ExchangeError {
    step->Err_0
}

/// What adding liquidity from deposits does: the shares minted or the
/// refusal, the pool and the deposits after the call, and the amounts taken.
pub open spec fn spec_add_liquidity(
    pool: PoolState,
    deposits: Map<Seq<char>, u128>,
    sender_id: Seq<char>,
    amounts: Seq<u128>,
    min_amounts: Option<Vec<u128>>,
) -> (Result<u128, ExchangeError>, PoolState, Map<Seq<char>, u128>, Seq<u128>) {
    let added = crate::pool_state::spec_add_liquidity(pool, sender_id, amounts);
    let first = spec_withdraw(deposits, pool.tokens[0], added.2[0]);
    let second = spec_withdraw(first.1, pool.tokens[1], added.2[1]);
    match added.0 {
        Err(e) => (Err(e), pool, deposits, amounts),
        Ok(shares) => {
            if min_amounts is Some && spec_below_minimum(added.2, min_amounts->0@) {
                (Err(ExchangeError::MinAmount), pool, deposits, amounts)
            } else if first.0 is Err {
                (Err(spec_error(first.0)), pool, deposits, amounts)
            } else if second.0 is Err {
                (Err(spec_error(second.0)), pool, deposits, amounts)
            } else {
                (Ok(shares), added.1, second.1, added.2)
            }
        },
    }
}

/// Add liquidity from already deposited amounts to given pool: the pool
/// takes what the deposit is worth at its ratio, and exactly that leaves the
/// sender's deposits. `amounts` is updated to what was taken. Refused where
/// the pool refuses the deposit, where an amount taken is below the minimum
/// given for it, and where the deposits do not hold what the pool would
/// take.
pub fn add_liquidity(
    pool: &mut Pool,
    account: &mut Account,
    sender_id: &String,
    amounts: &mut Vec<u128>,
    min_amounts: Option<Vec<u128>>,
) -> (r: Result<u128, ExchangeError>)
    requires
        old(pool).wf(),
        old(account).wf(),
    ensures
        final(pool).wf(),
        final(account).wf(),
        final(account).near_amount == old(account).near_amount,
        final(account).storage_used == old(account).storage_used,
        r == spec_add_liquidity(
            old(pool)@,
            old(account).tokens@,
            sender_id@,
            old(amounts)@,
            min_amounts,
        ).0,
        final(pool)@ == spec_add_liquidity(
            old(pool)@,
            old(account).tokens@,
            sender_id@,
            old(amounts)@,
            min_amounts,
        ).1,
        final(account).tokens@ == spec_add_liquidity(
            old(pool)@,
            old(account).tokens@,
            sender_id@,
            old(amounts)@,
            min_amounts,
        ).2,
        final(amounts)@ == spec_add_liquidity(
            old(pool)@,
            old(account).tokens@,
            sender_id@,
            old(amounts)@,
            min_amounts,
        ).3,
{
    let mut new_pool = pool.duplicate();
    let mut taken = clone_amounts(amounts);
    // Add amounts given to liquidity first. It will return the balanced amounts.
    let shares: u128 = match new_pool.add_liquidity(sender_id, &mut taken) {
        Ok(shares) => shares,
        Err(e) => {
            return Err(e);
        },
    };
    // Check that all amounts are above request min amounts in case of front
    // running that changes the exchange rate.
    match &min_amounts {
        Some(min_amounts) => {
            match check_min_amounts(&taken, min_amounts) {
                Ok(()) => {},
                Err(e) => {
                    return Err(e);
                },
            }
        },
        None => {},
    }
    proof {
        lemma_two_tokens(*pool);
        crate::laws::lemma_add_liquidity(pool@, sender_id@, amounts@);
    }
    // Subtract updated amounts from deposits. This will fail if there is not
    // enough funds for any of the tokens.
    let mut new_account = account.duplicate();
    let tokens = pool.tokens();
    match new_account.withdraw(&tokens[0], taken[0]) {
        Ok(()) => {},
        Err(e) => {
            return Err(e);
        },
    }
    match new_account.withdraw(&tokens[1], taken[1]) {
        Ok(()) => {},
        Err(e) => {
            return Err(e);
        },
    }
    *pool = new_pool;
    *account = new_account;
    *amounts = taken;
    Ok(shares)
}

/// A well-formed pool has two tokens, and a list of its tokens names them.
proof fn lemma_two_tokens(pool: Pool)
    requires
        pool.wf(),
    ensures
        pool@.valid(),
        pool@.tokens.len() == 2,
        forall|tokens: Seq<String>| #[trigger]
            names(tokens) == pool@.tokens ==> tokens.len() == 2 && tokens[0]@ == pool@.tokens[0]
                && tokens[1]@ == pool@.tokens[1],
{
    match pool {
        Pool::SimplePool(inner) => {
            inner.lemma_wf_valid();
        },
    }
    assert forall|tokens: Seq<String>| #[trigger] names(tokens) == pool@.tokens implies tokens.len()
        == 2 && tokens[0]@ == pool@.tokens[0] && tokens[1]@ == pool@.tokens[1] by {
        assert(names(tokens).len() == tokens.len());
        assert(names(tokens)[0] == tokens[0]@);
        assert(names(tokens)[1] == tokens[1]@);
    }
}

/// What removing liquidity into deposits does: the amounts paid or the
/// refusal, and the pool and the deposits after the call.
pub open spec fn spec_remove_liquidity(
    pool: PoolState,
    deposits: Map<Seq<char>, u128>,
    sender_id: Seq<char>,
    shares: u128,
    min_amounts: Seq<u128>,
) -> (Result<Seq<u128>, ExchangeError>, PoolState, Map<Seq<char>, u128>) {
    let removed = crate::pool_state::spec_remove_liquidity(pool, sender_id, shares, min_amounts);
    match removed.0 {
        Err(e) => (Err(e), pool, deposits),
        Ok(paid) => {
            let first = spec_deposit(deposits, pool.tokens[0], paid[0]);
            let second = spec_deposit(first.1, pool.tokens[1], paid[1]);
            if first.0 is Err {
                (Err(spec_error(first.0)), pool, deposits)
            } else if second.0 is Err {
                (Err(spec_error(second.0)), pool, deposits)
            } else {
                (Ok(paid), removed.1, second.1)
            }
        },
    }
}

/// Remove liquidity from the pool into the sender's deposits: what the
/// shares stand for leaves the pool and is added to the deposits. Refused
/// where the pool refuses the withdrawal, and with `Overflow` where a
/// deposit would leave 128 bits.
pub fn remove_liquidity(
    pool: &mut Pool,
    account: &mut Account,
    sender_id: &String,
    shares: u128,
    min_amounts: Vec<u128>,
) -> (r: Result<Vec<u128>, ExchangeError>)
    requires
        old(pool).wf(),
        old(account).wf(),
    ensures
        final(pool).wf(),
        final(account).wf(),
        final(account).near_amount == old(account).near_amount,
        final(account).storage_used == old(account).storage_used,
        match spec_remove_liquidity(
            old(pool)@,
            old(account).tokens@,
            sender_id@,
            shares,
            min_amounts@,
        ).0 {
            Ok(paid) => r is Ok && r->Ok_0@ == paid,
            Err(e) => r is Err && r->Err_0 == e,
        },
        final(pool)@ == spec_remove_liquidity(
            old(pool)@,
            old(account).tokens@,
            sender_id@,
            shares,
            min_amounts@,
        ).1,
        final(account).tokens@ == spec_remove_liquidity(
            old(pool)@,
            old(account).tokens@,
            sender_id@,
            shares,
            min_amounts@,
        ).2,
{
    let mut new_pool = pool.duplicate();
    let paid: Vec<u128> = match new_pool.remove_liquidity(sender_id, shares, min_amounts) {
        Ok(paid) => paid,
        Err(e) => {
            return Err(e);
        },
    };
    proof {
        lemma_two_tokens(*pool);
        crate::laws::lemma_remove_liquidity(pool@, sender_id@, shares, min_amounts@);
    }
    let mut new_account = account.duplicate();
    let tokens = pool.tokens();
    match new_account.deposit(&tokens[0], paid[0]) {
        Ok(()) => {},
        Err(e) => {
            return Err(e);
        },
    }
    match new_account.deposit(&tokens[1], paid[1]) {
        Ok(()) => {},
        Err(e) => {
            return Err(e);
        },
    }
    *pool = new_pool;
    *account = new_account;
    Ok(paid)
}

/// What a swap out of deposits does: the amount received or the refusal,
/// and the pool and the deposits after the call.
pub open spec fn spec_swap(
    pool: PoolState,
    deposits: Map<Seq<char>, u128>,
    token_in: Seq<char>,
    amount_in: u128,
    token_out: Seq<char>,
    min_amount_out: u128,
    admin_fee: AdminFees,
) -> (Result<u128, ExchangeError>, PoolState, Map<Seq<char>, u128>) {
    let paid_in = spec_withdraw(deposits, token_in, amount_in);
    let swapped = crate::pool_state::spec_swap(
        pool,
        token_in,
        amount_in,
        token_out,
        min_amount_out,
        admin_fee,
    );
    if paid_in.0 is Err {
        (Err(spec_error(paid_in.0)), pool, deposits)
    } else {
        match swapped.0 {
            Err(e) => (Err(e), pool, deposits),
            Ok(amount_out) => {
                let paid_out = spec_deposit(paid_in.1, token_out, amount_out);
                if paid_out.0 is Err {
                    (Err(spec_error(paid_out.0)), pool, deposits)
                } else {
                    (Ok(amount_out), swapped.1, paid_out.1)
                }
            },
        }
    }
}

/// Swaps `amount_in` of `token_in` out of the sender's deposits into
/// `token_out` via the pool, and adds what the pool pays to the deposits.
/// Refused where the deposits do not hold the amount, where the pool
/// refuses the swap, and with `Overflow` where the deposit of what was
/// received would leave 128 bits.
pub fn swap(
    pool: &mut Pool,
    account: &mut Account,
    token_in: &String,
    amount_in: u128,
    token_out: &String,
    min_amount_out: u128,
    admin_fee: AdminFees,
) -> (r: Result<u128, ExchangeError>)
    requires
        old(pool).wf(),
        old(account).wf(),
    ensures
        final(pool).wf(),
        final(account).wf(),
        final(account).near_amount == old(account).near_amount,
        final(account).storage_used == old(account).storage_used,
        r == spec_swap(
            old(pool)@,
            old(account).tokens@,
            token_in@,
            amount_in,
            token_out@,
            min_amount_out,
            admin_fee,
        ).0,
        final(pool)@ == spec_swap(
            old(pool)@,
            old(account).tokens@,
            token_in@,
            amount_in,
            token_out@,
            min_amount_out,
            admin_fee,
        ).1,
        final(account).tokens@ == spec_swap(
            old(pool)@,
            old(account).tokens@,
            token_in@,
            amount_in,
            token_out@,
            min_amount_out,
            admin_fee,
        ).2,
{
    // Take amount of `token_in` out from account to pool.
    let mut new_account = account.duplicate();
    match new_account.withdraw(token_in, amount_in) {
        Ok(()) => {},
        Err(e) => {
            return Err(e);
        },
    }
    let mut new_pool = pool.duplicate();
    let amount_out: u128 = match new_pool.swap(
        token_in,
        amount_in,
        token_out,
        min_amount_out,
        admin_fee,
    ) {
        Ok(amount_out) => amount_out,
        Err(e) => {
            return Err(e);
        },
    };
    match new_account.deposit(token_out, amount_out) {
        Ok(()) => {},
        Err(e) => {
            return Err(e);
        },
    }
    *pool = new_pool;
    *account = new_account;
    Ok(amount_out)
}

} // verus!
