//! The constant-product pool of two tokens.

use crate::admin_fee::AdminFees;
use crate::balance_map::{distinct_keys, entries_to_map, entry_keys, entry_values, seq_sum};
use crate::errors::ExchangeError;
use crate::ledger::ShareLedger;
use crate::pool_state::{
    amount_for, fee_shares, lemma_amount_of_shares, lemma_share_of_reserve,
    lemma_swap_return_bounds, names, shares_for, spec_add_liquidity, spec_from_parts,
    spec_get_return, spec_mint_shares, spec_new, spec_predict_remove_liquidity,
    spec_remove_liquidity, spec_return_at, spec_swap, spec_token_index, PoolState,
};
use crate::u256::{mul_u128, pow2_128, pow2_256, U256};
use crate::utils::{
    is_floor_sqrt, lemma_floor_sqrt_monotonic, spec_balance, uint_sqrt, SwapVolume, FEE_DIVISOR,
    INIT_SHARES_SUPPLY, NUM_TOKENS,
};
use vstd::prelude::*;

verus! {

/// The shares that a deposit of `amount` is worth at the pool's ratio.
fn shares_of_deposit(amount: u128, reserve: u128, total_supply: u128) -> (r: U256)
    requires
        reserve > 0,
    ensures
        r@ == shares_for(amount, reserve, total_supply),
{
    mul_u128(amount, total_supply).div_rem(U256::from_u128(reserve)).0
}

/// The part of `reserve` that `shares` stand for, where `shares` are at most
/// what a deposit of `amount` is worth.
fn amount_of_shares(reserve: u128, shares: U256, total_supply: u128, amount: u128) -> (r: u128)
    requires
        reserve > 0,
        total_supply > 0,
        0 <= shares@ <= shares_for(amount, reserve, total_supply),
    ensures
        r == amount_for(reserve, shares@, total_supply),
        r <= amount,
{
    proof {
        lemma_amount_of_shares(reserve as int, shares@, total_supply as int, amount as int);
    }
    let product = shares.checked_mul_u128(reserve).unwrap();
    assert(shares@ * reserve as int == reserve as int * shares@) by (nonlinear_arith);
    product.div_rem(U256::from_u128(total_supply)).0.as_u128()
}

/// Products of a 128-bit value with a fee factor stay far below 256 bits.
proof fn lemma_small_products(amount: int, keep: int, balance: int)
    requires
        0 <= amount < pow2_128(),
        0 <= keep <= FEE_DIVISOR,
        0 <= balance < pow2_128(),
    ensures
        0 <= amount * keep < 10000 * pow2_128(),
        0 <= FEE_DIVISOR * balance < 10000 * pow2_128(),
        amount * keep + FEE_DIVISOR * balance < pow2_256(),
{
    assert(0 <= amount * keep <= amount * 10000) by (nonlinear_arith)
        requires
            0 <= amount,
            0 <= keep <= 10000,
    ;
    assert(pow2_256() == pow2_128() * pow2_128());
    assert(20000 * pow2_128() < pow2_128() * pow2_128()) by (nonlinear_arith)
        requires
            pow2_128() > 20000,
    ;
}

/// The new shares that a fee earns on the growth of the invariant.
fn fee_shares_of(numerator: U256, new_invariant: U256, fee: u32) -> (r: Option<u128>)
    requires
        0 <= new_invariant@ < pow2_128(),
    ensures
        r == fee_shares(numerator@, new_invariant@, fee),
{
    if fee == 0 || numerator.is_zero() {
        proof {
            numerator.lemma_bounded();
        }
        return Some(0);
    }
    proof {
        numerator.lemma_bounded();
        assert(new_invariant@ * 10000 < pow2_128() * pow2_128()) by (nonlinear_arith)
            requires
                0 <= new_invariant@ < pow2_128(),
                pow2_128() > 10000,
        ;
    }
    let scaled = new_invariant.checked_mul_u128(FEE_DIVISOR as u128).unwrap();
    let denominator = scaled.div_rem(U256::from_u128(fee as u128)).0;
    if denominator.is_zero() {
        return None;
    }
    numerator.div_rem(denominator).0.try_as_u128()
}

/// The root of a product of two 128-bit values fits in 128 bits.
proof fn lemma_root_of_product(root: int, a: int, b: int)
    requires
        is_floor_sqrt(root, a * b),
        0 <= a < pow2_128(),
        0 <= b < pow2_128(),
    ensures
        0 <= root < pow2_128(),
{
    assert(a * b < pow2_128() * pow2_128()) by (nonlinear_arith)
        requires
            0 <= a < pow2_128(),
            0 <= b < pow2_128(),
    ;
    assert(root >= pow2_128() ==> root * root >= pow2_128() * pow2_128()) by (nonlinear_arith);
}

/// The growth of a 128-bit root times a 128-bit supply fits in 256 bits.
proof fn lemma_times_supply(growth: int, root: int, total_supply: int)
    requires
        0 <= growth <= root < pow2_128(),
        0 <= total_supply < pow2_128(),
    ensures
        0 <= growth * total_supply < pow2_256(),
{
    assert(0 <= growth * total_supply < pow2_128() * pow2_128()) by (nonlinear_arith)
        requires
            0 <= growth < pow2_128(),
            0 <= total_supply < pow2_128(),
    ;
}

/// A pool of two tokens that prices swaps by the constant product of its
/// reserves.
pub struct SimplePool {
    /// List of tokens in the pool.
    token_account_ids: Vec<String>,
    /// How much of each token the pool holds.
    amounts: Vec<u128>,
    /// Volumes accumulated by this pool.
    volumes: Vec<SwapVolume>,
    /// Fee charged for swap (gets divided by FEE_DIVISOR).
    total_fee: u32,
    /// Obsolete, kept for compatibility.
    exchange_fee: u32,
    /// Obsolete, kept for compatibility.
    referral_fee: u32,
    /// Shares of the pool by liquidity providers, and their total number.
    shares: ShareLedger,
}

impl View for SimplePool {
    type V = PoolState;

    closed spec fn view(&self) -> PoolState {
        PoolState {
            tokens: names(self.token_account_ids@),
            amounts: self.amounts@,
            volumes: self.volumes@,
            total_fee: self.total_fee,
            exchange_fee: self.exchange_fee,
            referral_fee: self.referral_fee,
            shares: self.shares@,
            shares_total_supply: self.shares.total(),
        }
    }
}

impl SimplePool {
    /// Whether the pool is well formed. Every pool that this library hands
    /// out is, and stays so under its operations.
    pub closed spec fn wf(&self) -> bool {
        &&& self.shares.wf()
        &&& self@.valid()
    }

    /// Creates a pool of the two tokens named, without liquidity. Refused
    /// where the fee is not below the fee divisor, where the tokens are not
    /// two, and where they are the same.
    pub fn new(
        token_account_ids: Vec<String>,
        total_fee: u32,
        exchange_fee: u32,
        referral_fee: u32,
    ) -> (r: Result<Self, ExchangeError>)
        ensures
            match spec_new(names(token_account_ids@), total_fee, exchange_fee, referral_fee) {
                Ok(s) => r is Ok && r->Ok_0.wf() && r->Ok_0@ == s,
                Err(e) => r is Err && r->Err_0 == e,
            },
    {
        if total_fee >= FEE_DIVISOR {
            return Err(ExchangeError::FeeTooLarge);
        }
        if token_account_ids.len() != NUM_TOKENS {
            return Err(ExchangeError::ShouldHaveTwoTokens);
        }
        if token_account_ids[0] == token_account_ids[1] {
            return Err(ExchangeError::DuplicateTokens);
        }
        let mut amounts: Vec<u128> = Vec::new();
        amounts.push(0);
        amounts.push(0);
        let mut volumes: Vec<SwapVolume> = Vec::new();
        volumes.push(SwapVolume { input: 0, output: 0 });
        volumes.push(SwapVolume { input: 0, output: 0 });
        let pool = SimplePool {
            token_account_ids,
            amounts,
            volumes,
            total_fee,
            exchange_fee,
            referral_fee,
            shares: ShareLedger::new(),
        };
        proof {
            crate::balance_map::lemma_map_sum_empty();
            assert(pool@.amounts =~= seq![0u128, 0u128]);
            assert(pool@.volumes =~= seq![
                SwapVolume { input: 0, output: 0 },
                SwapVolume { input: 0, output: 0 },
            ]);
        }
        Ok(pool)
    }

    /// Puts a pool together again from what `tokens`, `amounts`,
    /// `get_volumes`, the fee getters and `shares_to_vec` gave of it. `None`
    /// where the parts are not those of a pool: a holder occurs twice, the
    /// holdings leave 128 bits, or the state they make is not valid.
    pub fn from_parts(
        token_account_ids: Vec<String>,
        amounts: Vec<u128>,
        volumes: Vec<SwapVolume>,
        total_fee: u32,
        exchange_fee: u32,
        referral_fee: u32,
        shares: &Vec<(String, u128)>,
    ) -> (r: Option<Self>)
        ensures
            match spec_from_parts(
                names(token_account_ids@),
                amounts@,
                volumes@,
                total_fee,
                exchange_fee,
                referral_fee,
                shares@,
            ) {
                Some(s) => r is Some && r->0.wf() && r->0@ == s,
                None => r is None,
            },
    {
        if token_account_ids.len() != NUM_TOKENS || amounts.len() != NUM_TOKENS || volumes.len()
            != NUM_TOKENS {
            return None;
        }
        if token_account_ids[0] == token_account_ids[1] || total_fee >= FEE_DIVISOR {
            return None;
        }
        let ledger = match ShareLedger::from_vec(shares) {
            Some(ledger) => ledger,
            None => {
                return None;
            },
        };
        let total: u128 = ledger.total_supply();
        if total == 0 && (amounts[0] != 0 || amounts[1] != 0) {
            return None;
        }
        if total > 0 && (amounts[0] == 0 || amounts[1] == 0) {
            return None;
        }
        proof {
            ledger.lemma_total_is_sum();
        }
        Some(
            SimplePool {
                token_account_ids,
                amounts,
                volumes,
                total_fee,
                exchange_fee,
                referral_fee,
                shares: ledger,
            },
        )
    }

    /// Returns the holdings of all registered liquidity providers, each
    /// holder once.
    pub fn shares_to_vec(&self) -> (r: Vec<(String, u128)>)
        requires
            self.wf(),
        ensures
            distinct_keys(entry_keys(r@)),
            entries_to_map(entry_keys(r@), entry_values(r@)) == self@.shares,
            seq_sum(entry_values(r@)) == self@.shares_total_supply,
    {
        self.shares.to_vec()
    }

    /// Returns the two fees kept for compatibility: the exchange's and the
    /// referrer's.
    pub fn obsolete_fees(&self) -> (r: (u32, u32))
        ensures
            r.0 == self@.exchange_fee,
            r.1 == self@.referral_fee,
    {
        (self.exchange_fee, self.referral_fee)
    }

    /// A copy of the pool.
    pub fn duplicate(&self) -> (r: Self)
        ensures
            r@ == self@,
            self.wf() ==> r.wf(),
    {
        SimplePool {
            token_account_ids: crate::utils::clone_names(&self.token_account_ids),
            amounts: crate::utils::clone_amounts(&self.amounts),
            volumes: self.get_volumes(),
            total_fee: self.total_fee,
            exchange_fee: self.exchange_fee,
            referral_fee: self.referral_fee,
            shares: self.shares.duplicate(),
        }
    }

    /// Register given account with 0 balance in shares. Refused with
    /// `AlreadyRegistered` where it is registered already.
    pub fn share_register(&mut self, account_id: &String) -> (r: Result<(), ExchangeError>)
        requires
            old(self).wf(),
        ensures
            final(self).wf(),
            old(self)@.shares.dom().contains(account_id@) ==> r == Err::<(), ExchangeError>(
                ExchangeError::AlreadyRegistered,
            ) && final(self)@ == old(self)@,
            !old(self)@.shares.dom().contains(account_id@) ==> r is Ok && final(self)@ == (PoolState {
                shares: old(self)@.shares.insert(account_id@, 0),
                ..old(self)@
            }),
    {
        let r = self.shares.register(account_id);
        proof {
            self.shares.lemma_total_is_sum();
        }
        r
    }

    /// Returns balance of shares for given user; zero for one that is not
    /// registered.
    pub fn share_balance_of(&self, account_id: &String) -> (r: u128)
        requires
            self.wf(),
        ensures
            r == spec_balance(self@.shares, account_id@),
    {
        match self.shares.balance_of(account_id) {
            Some(balance) => balance,
            None => 0,
        }
    }

    /// Returns total number of shares in this pool.
    pub fn share_total_balance(&self) -> (r: u128)
        ensures
            r == self@.shares_total_supply,
    {
        self.shares.total_supply()
    }

    /// Returns list of tokens in this pool.
    pub fn tokens(&self) -> (r: &[String])
        ensures
            names(r@) == self@.tokens,
    {
        self.token_account_ids.as_slice()
    }

    /// Returns how much of each token the pool holds.
    pub fn amounts(&self) -> (r: &[u128])
        ensures
            r@ == self@.amounts,
    {
        self.amounts.as_slice()
    }

    /// Whether the account is registered as a liquidity provider.
    pub fn is_lp(&self, account_id: &String) -> (r: bool)
        requires
            self.wf(),
        ensures
            r == self@.shares.dom().contains(account_id@),
    {
        self.shares.is_registered(account_id)
    }

    /// Returns the fee charged on a swap, in parts of the fee divisor.
    pub fn get_fee(&self) -> (r: u32)
        ensures
            r == self@.total_fee,
    {
        self.total_fee
    }

    /// Returns volumes of the given pool.
    pub fn get_volumes(&self) -> (r: Vec<SwapVolume>)
        ensures
            r@ == self@.volumes,
    {
        let mut volumes: Vec<SwapVolume> = Vec::new();
        let mut i: usize = 0;
        while i < self.volumes.len()
            invariant
                i <= self.volumes.len(),
                volumes@ == self.volumes@.take(i as int),
            decreases self.volumes.len() - i,
        {
            volumes.push(self.volumes[i]);
            assert(self.volumes@.take(i + 1) =~= self.volumes@.take(i as int).push(
                self.volumes[i as int],
            ));
            i = i + 1;
        }
        assert(self.volumes@.take(i as int) =~= self.volumes@);
        volumes
    }

    /// Mints `shares` new shares to the account, which becomes registered if
    /// it was not. Minting nothing changes nothing. Refused with
    /// `NoLiquidity` while the pool holds no liquidity, and with `Overflow`
    /// where the total supply would leave 128 bits.
    pub fn mint_shares(&mut self, account_id: &String, shares: u128) -> (r: Result<(), ExchangeError>)
        requires
            old(self).wf(),
        ensures
            final(self).wf(),
            r == spec_mint_shares(old(self)@, account_id@, shares).0,
            final(self)@ == spec_mint_shares(old(self)@, account_id@, shares).1,
    {
        if shares == 0 {
            return Ok(());
        }
        if self.shares.total_supply() == 0 {
            return Err(ExchangeError::NoLiquidity);
        }
        let r = self.shares.mint(account_id, shares);
        proof {
            self.shares.lemma_total_is_sum();
        }
        r
    }

    /// Returns index of token in given pool.
    fn token_index(&self, token_id: &String) -> (r: Result<usize, ExchangeError>)
        requires
            self.wf(),
        ensures
            match spec_token_index(self@.tokens, token_id@) {
                Some(i) => r == Ok::<usize, ExchangeError>(i as usize) && 0 <= i < NUM_TOKENS
                    && self@.tokens[i] == token_id@,
                None => r == Err::<usize, ExchangeError>(ExchangeError::MissingToken),
            },
    {
        let mut i: usize = 0;
        while i < self.token_account_ids.len()
            invariant
                self.wf(),
                i <= self.token_account_ids.len(),
                forall|j: int| 0 <= j < i ==> names(self.token_account_ids@)[j] != token_id@,
            decreases self.token_account_ids.len() - i,
        {
            if self.token_account_ids[i] == *token_id {
                proof {
                    let tokens = names(self.token_account_ids@);
                    let id = token_id@;
                    assert(0 <= i < tokens.len() && tokens[i as int] == id && forall|j: int|
                        0 <= j < i ==> tokens[j] != id);
                    let c = choose|c: int|
                        0 <= c < tokens.len() && tokens[c] == id && forall|j: int|
                            0 <= j < c ==> tokens[j] != id;
                    assert(c == i);
                    assert(self@.tokens == tokens);
                    assert(spec_token_index(tokens, id) == Some(c));
                }
                return Ok(i);
            }
            i = i + 1;
        }
        Err(ExchangeError::MissingToken)
    }

    /// Adds the amounts of tokens to liquidity pool and returns number of
    /// shares that this user receives. Updates `amounts` to the amounts kept
    /// in the pool.
    ///
    /// The first deposit into a pool without shares is taken whole and earns
    /// the initial supply. A later deposit earns what its less generous side
    /// is worth at the pool's current ratio, and the pool takes of each token
    /// only what those shares stand for. A refused deposit changes neither
    /// the pool nor `amounts`.
    pub fn add_liquidity(&mut self, sender_id: &String, amounts: &mut Vec<u128>) -> (r: Result<
        u128,
        ExchangeError,
    >)
        requires
            old(self).wf(),
        ensures
            final(self).wf(),
            r == spec_add_liquidity(old(self)@, sender_id@, old(amounts)@).0,
            final(self)@ == spec_add_liquidity(old(self)@, sender_id@, old(amounts)@).1,
            final(amounts)@ == spec_add_liquidity(old(self)@, sender_id@, old(amounts)@).2,
    {
        if amounts.len() != NUM_TOKENS {
            return Err(ExchangeError::WrongTokenCount);
        }
        if amounts[0] == 0 || amounts[1] == 0 {
            return Err(ExchangeError::ZeroAmount);
        }
        let total: u128 = self.shares.total_supply();
        let shares: u128;
        let taken_0: u128;
        let taken_1: u128;
        if total > 0 {
            let first = shares_of_deposit(amounts[0], self.amounts[0], total);
            let second = shares_of_deposit(amounts[1], self.amounts[1], total);
            let fair = first.min(second);
            if fair.is_zero() {
                return Err(ExchangeError::ZeroShares);
            }
            let part_0 = amount_of_shares(self.amounts[0], fair, total, amounts[0]);
            let part_1 = amount_of_shares(self.amounts[1], fair, total, amounts[1]);
            if part_0 == 0 || part_1 == 0 {
                return Err(ExchangeError::ZeroAmount);
            }
            shares = match fair.try_as_u128() {
                Some(v) => v,
                None => {
                    return Err(ExchangeError::Overflow);
                },
            };
            taken_0 = part_0;
            taken_1 = part_1;
        } else {
            shares = INIT_SHARES_SUPPLY;
            taken_0 = amounts[0];
            taken_1 = amounts[1];
        }
        if shares > u128::MAX - total || taken_0 > u128::MAX - self.amounts[0] || taken_1
            > u128::MAX - self.amounts[1] {
            return Err(ExchangeError::Overflow);
        }
        let new_0: u128 = self.amounts[0] + taken_0;
        let new_1: u128 = self.amounts[1] + taken_1;
        self.amounts[0] = new_0;
        self.amounts[1] = new_1;
        amounts[0] = taken_0;
        amounts[1] = taken_1;
        self.shares.mint(sender_id, shares).unwrap();
        proof {
            self.shares.lemma_total_is_sum();
            assert(self.amounts@ =~= seq![new_0, new_1]);
            assert(amounts@ =~= seq![taken_0, taken_1]);
        }
        Ok(shares)
    }

    /// Burns `shares` of the sender's shares and returns the part of each
    /// reserve that they stand for, rounded down. The sender stays registered
    /// even with no shares left. Refused where `shares` is zero, where the
    /// sender is not registered or holds fewer shares, and where an amount
    /// would be below its minimum; a refused withdrawal changes nothing.
    pub fn remove_liquidity(&mut self, sender_id: &String, shares: u128, min_amounts: Vec<u128>) -> (r:
        Result<Vec<u128>, ExchangeError>)
        requires
            old(self).wf(),
        ensures
            final(self).wf(),
            match spec_remove_liquidity(old(self)@, sender_id@, shares, min_amounts@).0 {
                Ok(paid) => r is Ok && r->Ok_0@ == paid,
                Err(e) => r is Err && r->Err_0 == e,
            },
            final(self)@ == spec_remove_liquidity(old(self)@, sender_id@, shares, min_amounts@).1,
    {
        if min_amounts.len() != NUM_TOKENS {
            return Err(ExchangeError::WrongTokenCount);
        }
        if shares == 0 {
            return Err(ExchangeError::ZeroShares);
        }
        let prev_shares_amount: u128 = match self.shares.balance_of(sender_id) {
            Some(balance) => balance,
            None => {
                return Err(ExchangeError::NoShares);
            },
        };
        if prev_shares_amount < shares {
            return Err(ExchangeError::NotEnoughShares);
        }
        let total: u128 = self.shares.total_supply();
        proof {
            self.shares.lemma_total_is_sum();
            lemma_share_of_reserve(self.amounts[0] as int, shares as int, total as int);
            lemma_share_of_reserve(self.amounts[1] as int, shares as int, total as int);
        }
        let paid_0: u128 = mul_u128(self.amounts[0], shares).div_rem(
            U256::from_u128(total),
        ).0.as_u128();
        let paid_1: u128 = mul_u128(self.amounts[1], shares).div_rem(
            U256::from_u128(total),
        ).0.as_u128();
        if paid_0 < min_amounts[0] || paid_1 < min_amounts[1] {
            return Err(ExchangeError::MinAmount);
        }
        let left_0: u128 = self.amounts[0] - paid_0;
        let left_1: u128 = self.amounts[1] - paid_1;
        self.amounts[0] = left_0;
        self.amounts[1] = left_1;
        self.shares.burn(sender_id, shares).unwrap();
        let mut amounts: Vec<u128> = Vec::new();
        amounts.push(paid_0);
        amounts.push(paid_1);
        proof {
            self.shares.lemma_total_is_sum();
            assert(self.amounts@ =~= seq![left_0, left_1]);
            assert(amounts@ =~= seq![paid_0, paid_1]);
        }
        Ok(amounts)
    }

    /// Returns number of tokens in outcome, given amount. Tokens are
    /// provided as indexes into token list for given pool.
    fn internal_get_return(&self, token_in: usize, amount_in: u128, token_out: usize) -> (r: Result<
        u128,
        ExchangeError,
    >)
        requires
            self.wf(),
            token_in < NUM_TOKENS,
            token_out < NUM_TOKENS,
        ensures
            r == spec_return_at(self@, token_in as int, amount_in, token_out as int),
    {
        let in_balance: u128 = self.amounts[token_in];
        let out_balance: u128 = self.amounts[token_out];
        if in_balance == 0 || out_balance == 0 || token_in == token_out || amount_in == 0 {
            return Err(ExchangeError::Invalid);
        }
        let keep: u128 = (FEE_DIVISOR - self.total_fee) as u128;
        let amount_with_fee = mul_u128(amount_in, keep);
        let scaled_balance = mul_u128(FEE_DIVISOR as u128, in_balance);
        proof {
            lemma_swap_return_bounds(in_balance, out_balance, amount_in, self.total_fee);
            lemma_small_products(amount_in as int, keep as int, in_balance as int);
        }
        let numerator = match amount_with_fee.checked_mul_u128(out_balance) {
            Some(v) => v,
            None => {
                return Err(ExchangeError::Overflow);
            },
        };
        let denominator = scaled_balance.checked_add(amount_with_fee).unwrap();
        Ok(numerator.div_rem(denominator).0.as_u128())
    }

    /// Returns how many tokens one would receive for `amount_in` of
    /// `token_in`, without changing the pool.
    pub fn get_return(&self, token_in: &String, amount_in: u128, token_out: &String) -> (r: Result<
        u128,
        ExchangeError,
    >)
        requires
            self.wf(),
        ensures
            r == spec_get_return(self@, token_in@, amount_in, token_out@),
    {
        let in_idx: usize = match self.token_index(token_in) {
            Ok(i) => i,
            Err(e) => {
                return Err(e);
            },
        };
        let out_idx: usize = match self.token_index(token_out) {
            Ok(i) => i,
            Err(e) => {
                return Err(e);
            },
        };
        self.internal_get_return(in_idx, amount_in, out_idx)
    }

    /// Swap `amount_in` of `token_in` into `token_out` and return how much
    /// was received, assuming that `amount_in` was already received from the
    /// sender.
    ///
    /// The price follows the constant product of the reserves, with the
    /// pool's fee taken from the amount paid in. What the fee adds to the
    /// square root of that product is shared out as new shares: to the
    /// exchange, and to the referrer where one is named and registered. A
    /// referrer who is not registered gets nothing. A refused swap changes
    /// nothing.
    pub fn swap(
        &mut self,
        token_in: &String,
        amount_in: u128,
        token_out: &String,
        min_amount_out: u128,
        admin_fee: &AdminFees,
    ) -> (r: Result<u128, ExchangeError>)
        requires
            old(self).wf(),
        ensures
            final(self).wf(),
            r == spec_swap(
                old(self)@,
                token_in@,
                amount_in,
                token_out@,
                min_amount_out,
                *admin_fee,
            ).0,
            final(self)@ == spec_swap(
                old(self)@,
                token_in@,
                amount_in,
                token_out@,
                min_amount_out,
                *admin_fee,
            ).1,
            final(self)@.liquidity() >= old(self)@.liquidity(),
    {
        if *token_in == *token_out {
            return Err(ExchangeError::SameTokenSwap);
        }
        let in_idx: usize = match self.token_index(token_in) {
            Ok(i) => i,
            Err(e) => {
                return Err(e);
            },
        };
        let out_idx: usize = match self.token_index(token_out) {
            Ok(i) => i,
            Err(e) => {
                return Err(e);
            },
        };
        let amount_out: u128 = match self.internal_get_return(in_idx, amount_in, out_idx) {
            Ok(v) => v,
            Err(e) => {
                return Err(e);
            },
        };
        if amount_out < min_amount_out {
            return Err(ExchangeError::MinAmount);
        }
        let in_balance: u128 = self.amounts[in_idx];
        let out_balance: u128 = self.amounts[out_idx];
        if amount_in > u128::MAX - in_balance {
            return Err(ExchangeError::Overflow);
        }
        proof {
            lemma_swap_return_bounds(in_balance, out_balance, amount_in, self.total_fee);
        }
        let new_in: u128 = in_balance + amount_in;
        let new_out: u128 = out_balance - amount_out;
        let total: u128 = self.shares.total_supply();

        let prev_invariant = uint_sqrt(mul_u128(in_balance, out_balance));
        // "Invariant" is by how much the dot product of amounts increased due to fees.
        let new_invariant = uint_sqrt(mul_u128(new_in, new_out));
        proof {
            lemma_floor_sqrt_monotonic(
                prev_invariant@,
                in_balance as int * out_balance as int,
                new_invariant@,
                new_in as int * new_out as int,
            );
            lemma_root_of_product(new_invariant@, new_in as int, new_out as int);
            lemma_times_supply(new_invariant@ - prev_invariant@, new_invariant@, total as int);
            assert(in_balance as int * out_balance as int == out_balance as int * in_balance as int)
                by (nonlinear_arith);
            assert(new_in as int * new_out as int == new_out as int * new_in as int)
                by (nonlinear_arith);
        }
        // The invariant cannot fall: the fee stays in the pool.
        let growth = new_invariant.checked_sub(prev_invariant).unwrap();
        let numerator = growth.checked_mul_u128(total).unwrap();

        // Allocates exchange fee as fraction of total fee by issuing LP shares proportionally.
        let to_exchange: u128 = match fee_shares_of(numerator, new_invariant, admin_fee.exchange_fee) {
            Some(v) => v,
            None => {
                return Err(ExchangeError::Overflow);
            },
        };
        if to_exchange > u128::MAX - total {
            return Err(ExchangeError::Overflow);
        }
        // If there is referral provided and the account already registered LP,
        // allocate it its part of LP rewards.
        let to_referrer: u128 = match &admin_fee.referral_id {
            Some(referral_id) => {
                if self.shares.is_registered(referral_id) {
                    match fee_shares_of(numerator, new_invariant, admin_fee.referral_fee) {
                        Some(v) => v,
                        None => {
                            return Err(ExchangeError::Overflow);
                        },
                    }
                } else {
                    0
                }
            },
            None => 0,
        };
        if to_referrer > u128::MAX - total - to_exchange {
            return Err(ExchangeError::Overflow);
        }
        self.amounts[in_idx] = new_in;
        self.amounts[out_idx] = new_out;
        // Keeping track of volume per each input traded separately.
        let volume = self.volumes[in_idx];
        self.volumes[in_idx] = SwapVolume {
            input: if amount_in > u128::MAX - volume.input {
                u128::MAX
            } else {
                volume.input + amount_in
            },
            output: if amount_out > u128::MAX - volume.output {
                u128::MAX
            } else {
                volume.output + amount_out
            },
        };
        self.shares.mint(&admin_fee.exchange_id, to_exchange).unwrap();
        match &admin_fee.referral_id {
            Some(referral_id) => {
                self.shares.mint(referral_id, to_referrer).unwrap();
            },
            None => {},
        }
        proof {
            self.shares.lemma_total_is_sum();
        }
        Ok(amount_out)
    }

    /// Returns what burning `shares` would pay out of each reserve, without
    /// changing the pool: nothing from a pool without shares. Refused with
    /// `Overflow` where an amount would leave 128 bits, which takes more
    /// shares than exist.
    pub fn predict_remove_liquidity(&self, shares: u128) -> (r: Result<Vec<u128>, ExchangeError>)
        requires
            self.wf(),
        ensures
            match spec_predict_remove_liquidity(self@, shares) {
                Some(paid) => r is Ok && r->Ok_0@ == paid,
                None => r is Err && r->Err_0 == ExchangeError::Overflow,
            },
    {
        let total: u128 = self.shares.total_supply();
        let mut result: Vec<u128> = Vec::new();
        if total == 0 {
            result.push(0);
            result.push(0);
            assert(result@ =~= seq![0u128, 0u128]);
            return Ok(result);
        }
        let first = mul_u128(self.amounts[0], shares).div_rem(U256::from_u128(total)).0;
        let second = mul_u128(self.amounts[1], shares).div_rem(U256::from_u128(total)).0;
        match (first.try_as_u128(), second.try_as_u128()) {
            (Some(paid_0), Some(paid_1)) => {
                result.push(paid_0);
                result.push(paid_1);
                assert(result@ =~= seq![paid_0, paid_1]);
                Ok(result)
            },
            _ => Err(ExchangeError::Overflow),
        }
    }

    /// A well-formed pool has a valid state.
    pub proof fn lemma_wf_valid(&self)
        requires
            self.wf(),
        ensures
            self@.valid(),
    {
    }
}

} // verus!
