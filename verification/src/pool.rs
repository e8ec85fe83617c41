//! The pool kinds that the exchange knows, behind one set of operations.

use crate::admin_fee::AdminFees;
use crate::errors::ExchangeError;
use crate::pool_state::{
    names, spec_add_liquidity, spec_get_return, spec_predict_remove_liquidity,
    spec_remove_liquidity, spec_swap, PoolState,
};
use crate::simple_pool::SimplePool;
use crate::utils::{spec_balance, SwapVolume};
use vstd::prelude::*;

verus! {

/// A liquidity pool of one of the kinds that the exchange knows. Every
/// operation is handed on to the pool inside.
pub enum Pool {
    /// A constant-product pool of two tokens.
    SimplePool(SimplePool),
}

impl View for Pool {
    type V = PoolState;

    open spec fn view(&self) -> PoolState {
        match self {
            Pool::SimplePool(pool) => pool@,
        }
    }
}

impl Pool {
    /// Whether the pool inside is well formed.
    pub open spec fn wf(&self) -> bool {
        match self {
            Pool::SimplePool(pool) => pool.wf(),
        }
    }

    /// A copy of the pool.
    pub fn duplicate(&self) -> (r: Self)
        ensures
            r@ == self@,
            self.wf() ==> r.wf(),
    {
        match self {
            Pool::SimplePool(pool) => Pool::SimplePool(pool.duplicate()),
        }
    }

    /// Returns pool kind.
    pub fn kind(&self) -> (r: String)
        ensures
            r@ == "SIMPLE_POOL"@,
    {
        match self {
            Pool::SimplePool(_) => "SIMPLE_POOL".to_string(),
        }
    }

    /// Returns which tokens are in the underlying pool.
    pub fn tokens(&self) -> (r: &[String])
        ensures
            names(r@) == self@.tokens,
    {
        match self {
            Pool::SimplePool(pool) => pool.tokens(),
        }
    }

    /// Adds liquidity into underlying pool.
    /// Updates amounts to amount kept in the pool.
    pub fn add_liquidity(&mut self, sender_id: &String, amounts: &mut Vec<u128>) -> (r: Result<
        u128,
        ExchangeError,
    >)
        requires
            old(self).wf(),
        ensures
            final(self).wf(),
            r == spec_add_liquidity(old(self)@, sender_id@, old(amounts)@).0,
            final(self)@ == spec_add_liquidity(old(self)@, sender_id@, old(amounts)@).1,
            final(amounts)@ == spec_add_liquidity(old(self)@, sender_id@, old(amounts)@).2,
    {
        match self {
            Pool::SimplePool(pool) => pool.add_liquidity(sender_id, amounts),
        }
    }

    /// Removes liquidity from underlying pool.
    pub fn remove_liquidity(&mut self, sender_id: &String, shares: u128, min_amounts: Vec<u128>) -> (r:
        Result<Vec<u128>, ExchangeError>)
        requires
            old(self).wf(),
        ensures
            final(self).wf(),
            match spec_remove_liquidity(old(self)@, sender_id@, shares, min_amounts@).0 {
                Ok(paid) => r is Ok && r->Ok_0@ == paid,
                Err(e) => r is Err && r->Err_0 == e,
            },
            final(self)@ == spec_remove_liquidity(old(self)@, sender_id@, shares, min_amounts@).1,
    {
        match self {
            Pool::SimplePool(pool) => pool.remove_liquidity(sender_id, shares, min_amounts),
        }
    }

    /// Returns how many tokens will one receive swapping given amount of
    /// token_in for token_out.
    pub fn get_return(&self, token_in: &String, amount_in: u128, token_out: &String) -> (r: Result<
        u128,
        ExchangeError,
    >)
        requires
            self.wf(),
        ensures
            r == spec_get_return(self@, token_in@, amount_in, token_out@),
    {
        match self {
            Pool::SimplePool(pool) => pool.get_return(token_in, amount_in, token_out),
        }
    }

    /// Return share decimal.
    pub fn get_share_decimal(&self) -> (r: u8)
        ensures
            r == 24,
    {
        match self {
            Pool::SimplePool(_) => 24,
        }
    }

    /// Returns given pool's total fee.
    pub fn get_fee(&self) -> (r: u32)
        ensures
            r == self@.total_fee,
    {
        match self {
            Pool::SimplePool(pool) => pool.get_fee(),
        }
    }

    /// Returns volumes of the given pool.
    pub fn get_volumes(&self) -> (r: Vec<SwapVolume>)
        ensures
            r@ == self@.volumes,
    {
        match self {
            Pool::SimplePool(pool) => pool.get_volumes(),
        }
    }

    /// Whether the account is registered as a liquidity provider.
    pub fn is_lp(&self, account_id: &String) -> (r: bool)
        requires
            self.wf(),
        ensures
            r == self@.shares.dom().contains(account_id@),
    {
        match self {
            Pool::SimplePool(pool) => pool.is_lp(account_id),
        }
    }

    /// Swaps given number of token_in for token_out and returns received
    /// amount.
    pub fn swap(
        &mut self,
        token_in: &String,
        amount_in: u128,
        token_out: &String,
        min_amount_out: u128,
        admin_fee: AdminFees,
    ) -> (r: Result<u128, ExchangeError>)
        requires
            old(self).wf(),
        ensures
            final(self).wf(),
            r == spec_swap(
                old(self)@,
                token_in@,
                amount_in,
                token_out@,
                min_amount_out,
                admin_fee,
            ).0,
            final(self)@ == spec_swap(
                old(self)@,
                token_in@,
                amount_in,
                token_out@,
                min_amount_out,
                admin_fee,
            ).1,
            final(self)@.liquidity() >= old(self)@.liquidity(),
    {
        match self {
            Pool::SimplePool(pool) => pool.swap(
                token_in,
                amount_in,
                token_out,
                min_amount_out,
                &admin_fee,
            ),
        }
    }

    /// Returns total number of shares in the pool.
    pub fn share_total_balance(&self) -> (r: u128)
        ensures
            r == self@.shares_total_supply,
    {
        match self {
            Pool::SimplePool(pool) => pool.share_total_balance(),
        }
    }

    /// Returns the shares of the account; zero for one that is not
    /// registered.
    pub fn share_balances(&self, account_id: &String) -> (r: u128)
        requires
            self.wf(),
        ensures
            r == spec_balance(self@.shares, account_id@),
    {
        match self {
            Pool::SimplePool(pool) => pool.share_balance_of(account_id),
        }
    }

    /// Registers the account with no shares.
    pub fn share_register(&mut self, account_id: &String) -> (r: Result<(), ExchangeError>)
        requires
            old(self).wf(),
        ensures
            final(self).wf(),
            old(self)@.shares.dom().contains(account_id@) ==> r == Err::<(), ExchangeError>(
                ExchangeError::AlreadyRegistered,
            ) && final(self)@ == old(self)@,
            !old(self)@.shares.dom().contains(account_id@) ==> r is Ok && final(self)@ == (PoolState {
                shares: old(self)@.shares.insert(account_id@, 0),
                ..old(self)@
            }),
    {
        match self {
            Pool::SimplePool(pool) => pool.share_register(account_id),
        }
    }

    /// Returns what burning `shares` would pay out, without changing the
    /// pool.
    pub fn predict_remove_liquidity(&self, shares: u128) -> (r: Result<Vec<u128>, ExchangeError>)
        requires
            self.wf(),
        ensures
            match spec_predict_remove_liquidity(self@, shares) {
                Some(paid) => r is Ok && r->Ok_0@ == paid,
                None => r is Err && r->Err_0 == ExchangeError::Overflow,
            },
    {
        match self {
            Pool::SimplePool(pool) => pool.predict_remove_liquidity(shares),
        }
    }

    /// Whether the pool trades the two tokens that `tokens` starts with, in
    /// that order. A list of fewer than two tokens names no pool.
    pub fn check_existed_pool(&self, tokens: &Vec<String>) -> (r: bool)
        requires
            self.wf(),
        ensures
            r == (tokens.len() >= 2 && self@.tokens[0] == tokens[0]@ && self@.tokens[1]
                == tokens[1]@),
    {
        if tokens.len() < 2 {
            return false;
        }
        let pool_tokens = self.tokens();
        proof {
            match self {
                Pool::SimplePool(pool) => {
                    pool.lemma_wf_valid();
                },
            }
            assert(names(pool_tokens@).len() == 2);
            assert(names(pool_tokens@)[0] == pool_tokens@[0]@);
            assert(names(pool_tokens@)[1] == pool_tokens@[1]@);
        }
        pool_tokens[0] == tokens[0] && pool_tokens[1] == tokens[1]
    }
}

} // verus!
