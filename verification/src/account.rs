//! The deposits of one account with the exchange, and what it pays for the
//! storage they take.

use crate::balance_map::BalanceMap;
use crate::errors::ExchangeError;
use crate::u256::mul_u128;
use crate::utils::spec_balance;
use vstd::prelude::*;

verus! {

/// Bytes that a 128-bit number takes in storage.
pub const U128_STORAGE: u64 = 16;

/// Bytes that a 64-bit number takes in storage.
pub const U64_STORAGE: u64 = 8;

/// Bytes that a 32-bit number takes in storage.
pub const U32_STORAGE: u64 = 4;

/// Max length of account id is 64 bytes. We charge per byte.
pub const ACC_ID_STORAGE: u64 = 64;

/// As a key, 4 bytes length would be added to the head.
pub const ACC_ID_AS_KEY_STORAGE: u64 = 68;

/// Bytes of the prefix under which an account's tokens are kept.
pub const KEY_PREFIX_ACC: u64 = 64;

/// As a collection key, 1 byte for the prefix.
pub const ACC_ID_AS_CLT_KEY_STORAGE: u64 = 69;

/// Bytes that an account without tokens takes: its key, one byte for its
/// version, its deposit, the length of its token list and its storage count.
pub const INIT_ACCOUNT_STORAGE: u64 = 98;

/// Bytes that one registered token adds to an account.
pub const TOKEN_STORAGE: u64 = 148;

/// The deposits of one account: what it paid in for storage, and its balance
/// of every token it registered.
pub struct Account {
    /// What the account paid in to cover its storage.
    pub near_amount: u128,
    /// The balance of each registered token.
    pub tokens: BalanceMap,
    /// Storage that the account was found to use.
    pub storage_used: u64,
}

/// The price of the storage of an account with `tokens` registered tokens.
pub open spec fn spec_storage_usage(tokens: nat, byte_cost: u128) -> int {
    (INIT_ACCOUNT_STORAGE + tokens * TOKEN_STORAGE) * byte_cost
}

/// The balances after each of `token_ids` that had no entry got one of zero.
pub open spec fn spec_register(tokens: Map<Seq<char>, u128>, token_ids: Seq<String>) -> Map<
    Seq<char>,
    u128,
>
    decreases token_ids.len(),
{
    if token_ids.len() == 0 {
        tokens
    } else {
        let before = spec_register(tokens, token_ids.drop_last());
        if before.dom().contains(token_ids.last()@) {
            before
        } else {
            before.insert(token_ids.last()@, 0)
        }
    }
}

impl Account {
    /// Whether the account is well formed.
    pub open spec fn wf(&self) -> bool {
        self.tokens.wf()
    }

    /// The price of the storage that the account takes, as a specification.
    pub open spec fn usage(&self, byte_cost: u128) -> int {
        spec_storage_usage(self.tokens.spec_len(), byte_cost)
    }

    /// An account with no deposit and no tokens.
    pub fn new() -> (r: Self)
        ensures
            r.wf(),
            r.near_amount == 0,
            r.storage_used == 0,
            r.tokens@ == Map::<Seq<char>, u128>::empty(),
    {
        Account { near_amount: 0, tokens: BalanceMap::new(), storage_used: 0 }
    }

    /// A copy of the account.
    pub fn duplicate(&self) -> (r: Self)
        ensures
            r.near_amount == self.near_amount,
            r.storage_used == self.storage_used,
            r.tokens@ == self.tokens@,
            self.wf() ==> r.wf(),
    {
        Account {
            near_amount: self.near_amount,
            tokens: self.tokens.duplicate(),
            storage_used: self.storage_used,
        }
    }

    /// The balance of a token, if it is registered.
    pub fn get_balance(&self, token_id: &String) -> (r: Option<u128>)
        requires
            self.wf(),
        ensures
            r == if self.tokens@.dom().contains(token_id@) {
                Some(self.tokens@[token_id@])
            } else {
                None
            },
    {
        self.tokens.get(token_id)
    }

    /// Returns minimal account deposit storage usage possible, at the given
    /// price of a byte. Refused with `Overflow` where it leaves 128 bits.
    pub fn min_storage_usage(byte_cost: u128) -> (r: Result<u128, ExchangeError>)
        ensures
            spec_storage_usage(0, byte_cost) <= u128::MAX ==> r == Ok::<u128, ExchangeError>(
                spec_storage_usage(0, byte_cost) as u128,
            ),
            spec_storage_usage(0, byte_cost) > u128::MAX ==> r == Err::<u128, ExchangeError>(
                ExchangeError::Overflow,
            ),
    {
        match mul_u128(INIT_ACCOUNT_STORAGE as u128, byte_cost).try_as_u128() {
            Some(v) => Ok(v),
            None => Err(ExchangeError::Overflow),
        }
    }

    /// Registers each of the tokens that is not registered yet, with a
    /// balance of zero.
    pub fn register(&mut self, token_ids: &Vec<String>)
        requires
            old(self).wf(),
        ensures
            final(self).wf(),
            final(self).tokens@ == spec_register(old(self).tokens@, token_ids@),
            final(self).near_amount == old(self).near_amount,
            final(self).storage_used == old(self).storage_used,
    {
        let mut i: usize = 0;
        while i < token_ids.len()
            invariant
                i <= token_ids.len(),
                self.wf(),
                self.tokens@ == spec_register(old(self).tokens@, token_ids@.take(i as int)),
                self.near_amount == old(self).near_amount,
                self.storage_used == old(self).storage_used,
            decreases token_ids.len() - i,
        {
            proof {
                assert(token_ids@.take(i + 1).drop_last() =~= token_ids@.take(i as int));
            }
            if self.tokens.get(&token_ids[i]).is_none() {
                self.tokens.insert(&token_ids[i], 0);
            }
            i = i + 1;
        }
        proof {
            assert(token_ids@.take(i as int) =~= token_ids@);
        }
    }

    /// Takes the token off the account. Refused with `NonZeroTokenBalance`
    /// where a balance is left; a token that is not registered is no matter.
    pub fn unregister(&mut self, token_id: &String) -> (r: Result<(), ExchangeError>)
        requires
            old(self).wf(),
        ensures
            final(self).wf(),
            final(self).near_amount == old(self).near_amount,
            final(self).storage_used == old(self).storage_used,
            spec_balance(old(self).tokens@, token_id@) == 0 ==> r is Ok && final(self).tokens@
                == old(self).tokens@.remove(token_id@),
            spec_balance(old(self).tokens@, token_id@) != 0 ==> r == Err::<(), ExchangeError>(
                ExchangeError::NonZeroTokenBalance,
            ) && final(self).tokens@ == old(self).tokens@,
    {
        match self.tokens.get(token_id) {
            Some(amount) => {
                if amount != 0 {
                    return Err(ExchangeError::NonZeroTokenBalance);
                }
                self.tokens.remove(token_id);
            },
            None => {
                assert(self.tokens@.remove(token_id@) =~= self.tokens@);
            },
        }
        Ok(())
    }

    /// Takes `amount` off the balance of a token. Refused with
    /// `TokenNotRegistered` where the token is not registered, and with
    /// `NotEnoughTokens` where the balance is smaller.
    pub fn withdraw(&mut self, token: &String, amount: u128) -> (r: Result<(), ExchangeError>)
        requires
            old(self).wf(),
        ensures
            final(self).wf(),
            final(self).near_amount == old(self).near_amount,
            final(self).storage_used == old(self).storage_used,
            r == spec_withdraw(old(self).tokens@, token@, amount).0,
            final(self).tokens@ == spec_withdraw(old(self).tokens@, token@, amount).1,
    {
        match self.tokens.get(token) {
            Some(x) => {
                if x < amount {
                    return Err(ExchangeError::NotEnoughTokens);
                }
                proof {
                    self.tokens.lemma_finite();
                }
                self.tokens.insert(token, x - amount);
                proof {
                    self.tokens.lemma_finite();
                    assert(old(self).tokens@.insert(token@, (x - amount) as u128).dom()
                        =~= old(self).tokens@.dom());
                }
                Ok(())
            },
            None => Err(ExchangeError::TokenNotRegistered),
        }
    }

    /// Passes where the deposit covers the storage that the account takes,
    /// and is refused with `InsufficientStorage` where it does not.
    pub fn assert_storage_usage(&self, byte_cost: u128) -> (r: Result<(), ExchangeError>)
        requires
            self.wf(),
        ensures
            self.usage(byte_cost) <= self.near_amount ==> r is Ok,
            self.usage(byte_cost) > self.near_amount ==> r == Err::<(), ExchangeError>(
                ExchangeError::InsufficientStorage,
            ),
    {
        match self.storage_usage(byte_cost) {
            Ok(usage) => {
                if usage <= self.near_amount {
                    Ok(())
                } else {
                    Err(ExchangeError::InsufficientStorage)
                }
            },
            Err(_) => Err(ExchangeError::InsufficientStorage),
        }
    }

    /// The price of the storage that the account takes, at the given price
    /// of a byte. Refused with `Overflow` where it leaves 128 bits.
    pub fn storage_usage(&self, byte_cost: u128) -> (r: Result<u128, ExchangeError>)
        requires
            self.wf(),
        ensures
            self.usage(byte_cost) <= u128::MAX ==> r == Ok::<u128, ExchangeError>(
                self.usage(byte_cost) as u128,
            ),
            self.usage(byte_cost) > u128::MAX ==> r == Err::<u128, ExchangeError>(
                ExchangeError::Overflow,
            ),
    {
        let bytes: u128 = INIT_ACCOUNT_STORAGE as u128 + self.tokens.len() as u128
            * TOKEN_STORAGE as u128;
        match mul_u128(bytes, byte_cost).try_as_u128() {
            Some(v) => Ok(v),
            None => Err(ExchangeError::Overflow),
        }
    }

    /// What of the deposit is free: the deposit less the price of the
    /// storage taken, and nothing where the price is higher.
    pub fn storage_available(&self, byte_cost: u128) -> (r: u128)
        requires
            self.wf(),
        ensures
            r == if self.near_amount > self.usage(byte_cost) {
                self.near_amount - self.usage(byte_cost)
            } else {
                0
            },
    {
        match self.storage_usage(byte_cost) {
            Ok(locked) => {
                if self.near_amount > locked {
                    self.near_amount - locked
                } else {
                    0
                }
            },
            Err(_) => 0,
        }
    }

    /// Deposit amount to the balance of given token; if given token is not
    /// registered and the deposit does not cover one more token, nothing
    /// changes and `false` is returned. Refused with `Overflow` where the
    /// balance would leave 128 bits.
    pub fn deposit_with_storage_check(&mut self, token: &String, amount: u128, byte_cost: u128) -> (r:
        Result<bool, ExchangeError>)
        requires
            old(self).wf(),
        ensures
            final(self).wf(),
            final(self).near_amount == old(self).near_amount,
            final(self).storage_used == old(self).storage_used,
            r == spec_deposit_with_storage_check(*old(self), token@, amount, byte_cost).0,
            final(self).tokens@ == spec_deposit_with_storage_check(
                *old(self),
                token@,
                amount,
                byte_cost,
            ).1,
    {
        match self.tokens.get(token) {
            Some(balance) => {
                // token has been registered, just add without storage check
                if amount > u128::MAX - balance {
                    return Err(ExchangeError::Overflow);
                }
                self.tokens.insert(token, balance + amount);
                Ok(true)
            },
            None => {
                let count: u128 = self.tokens.len() as u128 + 1;
                assert(count * TOKEN_STORAGE <= 0x1_0000_0000_0000_0000 * 148) by (nonlinear_arith)
                    requires
                        count <= 0x1_0000_0000_0000_0000,
                        TOKEN_STORAGE == 148,
                ;
                let bytes: u128 = INIT_ACCOUNT_STORAGE as u128 + count * TOKEN_STORAGE as u128;
                let covered: bool = match mul_u128(bytes, byte_cost).try_as_u128() {
                    Some(usage) => usage <= self.near_amount,
                    None => false,
                };
                if covered {
                    self.tokens.insert(token, amount);
                    Ok(true)
                } else {
                    Ok(false)
                }
            },
        }
    }

    /// Deposit amount to the balance of given token, which becomes
    /// registered if it was not. Refused with `Overflow` where the balance
    /// would leave 128 bits.
    pub fn deposit(&mut self, token: &String, amount: u128) -> (r: Result<(), ExchangeError>)
        requires
            old(self).wf(),
        ensures
            final(self).wf(),
            final(self).near_amount == old(self).near_amount,
            final(self).storage_used == old(self).storage_used,
            r == spec_deposit(old(self).tokens@, token@, amount).0,
            final(self).tokens@ == spec_deposit(old(self).tokens@, token@, amount).1,
    {
        crate::utils::add_to_collection(&mut self.tokens, token, amount)
    }
}

impl Account {
    /// Takes a transfer of `amount` of a token from outside into the
    /// account; the token becomes registered if it was not. Refused with
    /// `ZeroTransfer` where the amount is zero, with `Overflow` where the
    /// balance would leave 128 bits, and with `InsufficientStorage` where the
    /// deposit does not cover the account afterwards.
    pub fn transfer_from_user(&mut self, token_id: &String, amount: u128, byte_cost: u128) -> (r:
        Result<(), ExchangeError>)
        requires
            old(self).wf(),
        ensures
            final(self).wf(),
            final(self).near_amount == old(self).near_amount,
            final(self).storage_used == old(self).storage_used,
            r == spec_transfer_from_user(*old(self), token_id@, amount, byte_cost).0,
            final(self).tokens@ == spec_transfer_from_user(
                *old(self),
                token_id@,
                amount,
                byte_cost,
            ).1,
    {
        if amount == 0 {
            return Err(ExchangeError::ZeroTransfer);
        }
        let (account_amount, added): (u128, u128) = match self.tokens.get(token_id) {
            Some(balance) => (balance, 0),
            None => (0, 1),
        };
        if amount > u128::MAX - account_amount {
            return Err(ExchangeError::Overflow);
        }
        let count: u128 = self.tokens.len() as u128 + added;
        assert(count * TOKEN_STORAGE <= 0x1_0000_0000_0000_0000 * 148) by (nonlinear_arith)
            requires
                count <= 0x1_0000_0000_0000_0000,
                TOKEN_STORAGE == 148,
        ;
        let bytes: u128 = INIT_ACCOUNT_STORAGE as u128 + count * TOKEN_STORAGE as u128;
        let covered: bool = match mul_u128(bytes, byte_cost).try_as_u128() {
            Some(usage) => usage <= self.near_amount,
            None => false,
        };
        if !covered {
            return Err(ExchangeError::InsufficientStorage);
        }
        self.tokens.insert(token_id, amount + account_amount);
        Ok(())
    }

    /// Takes `amount` of the free part of the deposit out, or all of it
    /// where `amount` is zero, and returns what was taken. Refused with
    /// `NoStorageCanWithdraw` where nothing is free, and with
    /// `StorageWithdrawTooMuch` where less is free than was asked for.
    pub fn storage_withdraw(&mut self, amount: u128, byte_cost: u128) -> (r: Result<
        u128,
        ExchangeError,
    >)
        requires
            old(self).wf(),
        ensures
            final(self).wf(),
            final(self).tokens == old(self).tokens,
            final(self).storage_used == old(self).storage_used,
            r == spec_storage_withdraw(*old(self), amount, byte_cost),
            r matches Ok(taken) ==> final(self).near_amount == old(self).near_amount - taken
                && final(self).usage(byte_cost) <= final(self).near_amount,
            r is Err ==> final(self).near_amount == old(self).near_amount,
    {
        let available: u128 = self.storage_available(byte_cost);
        if available == 0 {
            return Err(ExchangeError::NoStorageCanWithdraw);
        }
        let withdraw_amount: u128 = if amount == 0 {
            available
        } else {
            amount
        };
        if withdraw_amount > available {
            return Err(ExchangeError::StorageWithdrawTooMuch);
        }
        self.near_amount = self.near_amount - withdraw_amount;
        Ok(withdraw_amount)
    }

    /// Takes `amount` of a token out of the account to send it away, or the
    /// whole balance where `amount` is zero, and returns what was taken; on
    /// request the token is unregistered as well. Refused where the token is
    /// not registered, where nothing would be taken, where the balance is
    /// smaller, and where the token is to be unregistered with a balance
    /// left.
    pub fn withdraw_to_send(&mut self, token_id: &String, amount: u128, unregister: bool) -> (r:
        Result<u128, ExchangeError>)
        requires
            old(self).wf(),
        ensures
            final(self).wf(),
            final(self).near_amount == old(self).near_amount,
            final(self).storage_used == old(self).storage_used,
            r == spec_withdraw_to_send(old(self).tokens@, token_id@, amount, unregister).0,
            final(self).tokens@ == spec_withdraw_to_send(
                old(self).tokens@,
                token_id@,
                amount,
                unregister,
            ).1,
    {
        let balance: u128 = match self.tokens.get(token_id) {
            Some(balance) => balance,
            None => {
                return Err(ExchangeError::TokenNotRegistered);
            },
        };
        // get full amount if amount param is 0
        let amount: u128 = if amount == 0 {
            balance
        } else {
            amount
        };
        if amount == 0 {
            return Err(ExchangeError::IllegalWithdrawAmount);
        }
        if balance < amount {
            return Err(ExchangeError::NotEnoughTokens);
        }
        if unregister {
            if balance != amount {
                return Err(ExchangeError::NonZeroTokenBalance);
            }
            self.tokens.remove(token_id);
        } else {
            self.tokens.insert(token_id, balance - amount);
        }
        Ok(amount)
    }
}

impl Account {
    /// Credits the deposit with the price of the storage that a call freed:
    /// storage that shrank from `prev_storage` to `storage_now` bytes, at
    /// `byte_cost` a byte. Storage that grew credits nothing. Refused with
    /// `Overflow` where the deposit would leave 128 bits.
    pub fn credit_freed_storage(&mut self, prev_storage: u64, storage_now: u64, byte_cost: u128) -> (r:
        Result<(), ExchangeError>)
        ensures
            final(self).tokens == old(self).tokens,
            final(self).storage_used == old(self).storage_used,
            old(self).near_amount + spec_freed(prev_storage, storage_now) * byte_cost <= u128::MAX
                ==> r is Ok && final(self).near_amount == old(self).near_amount + spec_freed(
                prev_storage,
                storage_now,
            ) * byte_cost,
            old(self).near_amount + spec_freed(prev_storage, storage_now) * byte_cost > u128::MAX
                ==> r == Err::<(), ExchangeError>(ExchangeError::Overflow) && final(self).near_amount
                == old(self).near_amount,
    {
        let freed: u64 = if prev_storage > storage_now {
            prev_storage - storage_now
        } else {
            0
        };
        match mul_u128(freed as u128, byte_cost).try_as_u128() {
            Some(credit) => {
                if credit > u128::MAX - self.near_amount {
                    return Err(ExchangeError::Overflow);
                }
                self.near_amount = self.near_amount + credit;
                Ok(())
            },
            None => Err(ExchangeError::Overflow),
        }
    }
}

/// The bytes that a call freed.
pub open spec fn spec_freed(prev_storage: u64, storage_now: u64) -> int {
    if prev_storage > storage_now {
        prev_storage - storage_now
    } else {
        0
    }
}

/// What becomes of a storage deposit of `amount`: what is credited to the
/// account and what goes back to the caller. A deposit for registration only
/// credits a new account with the smallest deposit and an account that
/// exists with nothing; any other deposit is credited whole. Refused with
/// `DepositLessThanMinStorage` where a new account comes with less than the
/// smallest deposit.
pub fn plan_storage_deposit(
    amount: u128,
    min_balance: u128,
    already_registered: bool,
    registration_only: bool,
) -> (r: Result<(u128, u128), ExchangeError>)
    ensures
        r == spec_plan_storage_deposit(amount, min_balance, already_registered, registration_only),
        r matches Ok(plan) ==> plan.0 + plan.1 == amount,
{
    if amount < min_balance && !already_registered {
        Err(ExchangeError::DepositLessThanMinStorage)
    } else if !registration_only {
        Ok((amount, 0))
    } else if already_registered {
        Ok((0, amount))
    } else {
        Ok((min_balance, amount - min_balance))
    }
}

/// What is credited and what goes back of a storage deposit.
pub open spec fn spec_plan_storage_deposit(
    amount: u128,
    min_balance: u128,
    already_registered: bool,
    registration_only: bool,
) -> Result<(u128, u128), ExchangeError> {
    if amount < min_balance && !already_registered {
        Err(ExchangeError::DepositLessThanMinStorage)
    } else if !registration_only {
        Ok((amount, 0u128))
    } else if already_registered {
        Ok((0u128, amount))
    } else {
        Ok((min_balance, (amount - min_balance) as u128))
    }
}

/// What a transfer into an account does: the outcome and the balances
/// after it.
pub open spec fn spec_transfer_from_user(
    account: Account,
    token_id: Seq<char>,
    amount: u128,
    byte_cost: u128,
) -> (Result<(), ExchangeError>, Map<Seq<char>, u128>) {
    let tokens = account.tokens@;
    let count = if tokens.dom().contains(token_id) {
        account.tokens.spec_len()
    } else {
        account.tokens.spec_len() + 1
    };
    if amount == 0 {
        (Err(ExchangeError::ZeroTransfer), tokens)
    } else if spec_balance(tokens, token_id) + amount > u128::MAX {
        (Err(ExchangeError::Overflow), tokens)
    } else if spec_storage_usage(count, byte_cost) > account.near_amount {
        (Err(ExchangeError::InsufficientStorage), tokens)
    } else {
        (Ok(()), tokens.insert(token_id, (spec_balance(tokens, token_id) + amount) as u128))
    }
}

/// What taking out of the storage deposit gives: the amount taken, or the
/// refusal.
pub open spec fn spec_storage_withdraw(account: Account, amount: u128, byte_cost: u128) -> Result<
    u128,
    ExchangeError,
> {
    let available = account.near_amount - account.usage(byte_cost);
    if available <= 0 {
        Err(ExchangeError::NoStorageCanWithdraw)
    } else if amount > available {
        Err(ExchangeError::StorageWithdrawTooMuch)
    } else if amount == 0 {
        Ok(available as u128)
    } else {
        Ok(amount)
    }
}

/// What taking a token out to send it away does: the amount taken or the
/// refusal, and the balances after it.
pub open spec fn spec_withdraw_to_send(
    tokens: Map<Seq<char>, u128>,
    token_id: Seq<char>,
    amount: u128,
    unregister: bool,
) -> (Result<u128, ExchangeError>, Map<Seq<char>, u128>) {
    if !tokens.dom().contains(token_id) {
        (Err(ExchangeError::TokenNotRegistered), tokens)
    } else {
        let taken = if amount == 0 {
            tokens[token_id]
        } else {
            amount
        };
        if taken == 0 {
            (Err(ExchangeError::IllegalWithdrawAmount), tokens)
        } else if tokens[token_id] < taken {
            (Err(ExchangeError::NotEnoughTokens), tokens)
        } else if unregister && tokens[token_id] != taken {
            (Err(ExchangeError::NonZeroTokenBalance), tokens)
        } else if unregister {
            (Ok(taken), tokens.remove(token_id))
        } else {
            (Ok(taken), tokens.insert(token_id, (tokens[token_id] - taken) as u128))
        }
    }
}

/// What is left of the deposit attached to a call once the storage that the
/// call took is paid for: storage that grew from `prev_storage` to
/// `storage_now` bytes, at `byte_cost` a byte. Storage that shrank costs
/// nothing. Refused with `StorageDeposit` where the deposit is too small.
pub fn storage_refund(prev_storage: u64, storage_now: u64, byte_cost: u128, attached: u128) -> (r:
    Result<u128, ExchangeError>)
    ensures
        r == spec_storage_refund(prev_storage, storage_now, byte_cost, attached),
{
    let grown: u64 = if storage_now > prev_storage {
        storage_now - prev_storage
    } else {
        0
    };
    match mul_u128(grown as u128, byte_cost).try_as_u128() {
        Some(storage_cost) => {
            if storage_cost <= attached {
                Ok(attached - storage_cost)
            } else {
                Err(ExchangeError::StorageDeposit)
            }
        },
        None => Err(ExchangeError::StorageDeposit),
    }
}

/// What is left of an attached deposit after the storage is paid for.
pub open spec fn spec_storage_refund(
    prev_storage: u64,
    storage_now: u64,
    byte_cost: u128,
    attached: u128,
) -> Result<u128, ExchangeError> {
    let grown = if storage_now > prev_storage {
        storage_now - prev_storage
    } else {
        0
    };
    if grown * byte_cost <= attached {
        Ok((attached - grown * byte_cost) as u128)
    } else {
        Err(ExchangeError::StorageDeposit)
    }
}

/// What adding `amount` to a token's balance does: the outcome and the
/// balances after it.
pub open spec fn spec_deposit(tokens: Map<Seq<char>, u128>, token: Seq<char>, amount: u128) -> (
    Result<(), ExchangeError>,
    Map<Seq<char>, u128>,
) {
    if spec_balance(tokens, token) + amount > u128::MAX {
        (Err(ExchangeError::Overflow), tokens)
    } else {
        (Ok(()), tokens.insert(token, (spec_balance(tokens, token) + amount) as u128))
    }
}

/// What taking `amount` off a token's balance does: the outcome and the
/// balances after it.
pub open spec fn spec_withdraw(tokens: Map<Seq<char>, u128>, token: Seq<char>, amount: u128) -> (
    Result<(), ExchangeError>,
    Map<Seq<char>, u128>,
) {
    if !tokens.dom().contains(token) {
        (Err(ExchangeError::TokenNotRegistered), tokens)
    } else if tokens[token] < amount {
        (Err(ExchangeError::NotEnoughTokens), tokens)
    } else {
        (Ok(()), tokens.insert(token, (tokens[token] - amount) as u128))
    }
}

/// What a deposit with a check of the storage does: the outcome and the
/// balances after it.
pub open spec fn spec_deposit_with_storage_check(
    account: Account,
    token: Seq<char>,
    amount: u128,
    byte_cost: u128,
) -> (Result<bool, ExchangeError>, Map<Seq<char>, u128>) {
    let tokens = account.tokens@;
    if tokens.dom().contains(token) {
        if tokens[token] + amount > u128::MAX {
            (Err(ExchangeError::Overflow), tokens)
        } else {
            (Ok(true), tokens.insert(token, (tokens[token] + amount) as u128))
        }
    } else if spec_storage_usage(account.tokens.spec_len() + 1, byte_cost) <= account.near_amount {
        (Ok(true), tokens.insert(token, amount))
    } else {
        (Ok(false), tokens)
    }
}

} // verus!
