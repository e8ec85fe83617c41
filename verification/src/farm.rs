//! Deposits that earn interest over time: what is kept of each, and the
//! rules of starting one and taking out of one. The interest itself is
//! worked out by the caller.

use crate::errors::ExchangeError;
use crate::RunningState;
use vstd::prelude::*;

verus! {

/// Seconds in a day.
pub const TIME_DAY: u128 = 86400;

/// Seconds that a deposit must have run before anything can be taken out.
pub const MIN_TIME: u128 = 30;

/// Seconds in a year.
pub const TIME_YEAR: u128 = 31536000;

/// One deposit that earns interest.
pub struct Tokens {
    /// Who made the deposit.
    pub account: String,
    /// When the deposit was registered.
    pub time_register: u128,
    /// When the deposit started to earn interest; zero before that.
    pub time_start: u128,
    /// When the deposit stops earning interest.
    pub time_end: u128,
    /// The token deposited.
    pub token_id: String,
    /// The amount on which interest is earned.
    pub balance: u128,
    /// Whether the deposit still runs.
    pub state: RunningState,
}

impl Tokens {
    /// Whether the deposit does not end before it starts.
    pub open spec fn wf(&self) -> bool {
        self.time_start <= self.time_end
    }

    /// A deposit of `amount` of a token, not started yet.
    pub fn new(acc: &String, token: &String, amount: u128) -> (r: Self)
        ensures
            r.wf(),
            r.account@ == acc@,
            r.token_id@ == token@,
            r.balance == amount,
            r.time_register == 0,
            r.time_start == 0,
            r.time_end == 0,
            r.state == RunningState::Running,
    {
        Tokens {
            account: acc.clone(),
            time_register: 0,
            time_start: 0,
            time_end: 0,
            token_id: token.clone(),
            balance: amount,
            state: RunningState::Running,
        }
    }

    /// The same deposit once more.
    pub fn duplicate(&self) -> (r: Self)
        ensures
            r == *self,
    {
        Tokens {
            account: self.account.clone(),
            time_register: self.time_register,
            time_start: self.time_start,
            time_end: self.time_end,
            token_id: self.token_id.clone(),
            balance: self.balance,
            state: self.state,
        }
    }

    /// Starts the deposit at `time_start`, to run for `time_about`. Refused
    /// with `Overflow` where its end would leave 128 bits.
    pub fn set_time(&mut self, time_register: &u128, time_start: &u128, time_about: u128) -> (r:
        Result<(), ExchangeError>)
        ensures
            final(self).account == old(self).account,
            final(self).token_id == old(self).token_id,
            final(self).balance == old(self).balance,
            final(self).state == old(self).state,
            *time_start + time_about <= u128::MAX ==> {
                &&& r is Ok
                &&& final(self).wf()
                &&& final(self).time_register == *time_register
                &&& final(self).time_start == *time_start
                &&& final(self).time_end == *time_start + time_about
            },
            *time_start + time_about > u128::MAX ==> r == Err::<(), ExchangeError>(
                ExchangeError::Overflow,
            ) && *final(self) == *old(self),
    {
        if time_about > u128::MAX - *time_start {
            return Err(ExchangeError::Overflow);
        }
        self.time_register = *time_register;
        self.time_start = *time_start;
        self.time_end = *time_start + time_about;
        Ok(())
    }

    /// Deposit amount to the balance of given token: the deposit is from now
    /// on one of `amount` of `token`.
    pub fn deposit(&mut self, token: &String, amount: u128)
        ensures
            final(self).token_id@ == token@,
            final(self).balance == amount,
            final(self).account == old(self).account,
            final(self).time_register == old(self).time_register,
            final(self).time_start == old(self).time_start,
            final(self).time_end == old(self).time_end,
            final(self).state == old(self).state,
    {
        self.token_id = token.clone();
        self.balance = amount;
    }

    /// The time for which the deposit has earned interest at `time_secons`:
    /// nothing before its start, and no more than its whole run after its
    /// end.
    pub fn elapsed(&self, time_secons: u128) -> (r: u128)
        requires
            self.wf(),
        ensures
            r == spec_elapsed(*self, time_secons),
    {
        if time_secons > self.time_end {
            self.time_end - self.time_start
        } else if time_secons > self.time_start {
            time_secons - self.time_start
        } else {
            0
        }
    }

    /// The time for which the deposit would have earned interest at
    /// `time_secons` if it never ended.
    pub fn elapsed_unbounded(&self, time_secons: u128) -> (r: u128)
        ensures
            r == if time_secons > self.time_start {
                time_secons - self.time_start
            } else {
                0
            },
    {
        if time_secons > self.time_start {
            time_secons - self.time_start
        } else {
            0
        }
    }

    /// What is left after `amount` is taken out of a deposit that has grown
    /// to `new_balance` in `after_time`. Refused with `NotEnoughTokens` where
    /// the deposit has not grown to `amount`, with `NotStarted` where it has
    /// not been started, and with `MinimumTime` where it has not run for
    /// more than the minimum time.
    pub fn check_withdraw(&self, amount: u128, after_time: u128, new_balance: u128) -> (r: Result<
        u128,
        ExchangeError,
    >)
        ensures
            r == spec_check_withdraw(*self, amount, after_time, new_balance),
    {
        if new_balance < amount {
            return Err(ExchangeError::NotEnoughTokens);
        }
        if self.time_start == 0 {
            return Err(ExchangeError::NotStarted);
        }
        if after_time <= MIN_TIME {
            return Err(ExchangeError::MinimumTime);
        }
        Ok(new_balance - amount)
    }

    /// Books a withdrawal that leaves `rest`: the deposit goes on with
    /// `old_balance`, the amount that grows to `rest` in the time it has run;
    /// with nothing left it is emptied and paused.
    pub fn settle_withdraw(&mut self, rest: u128, old_balance: u128)
        ensures
            final(self).account == old(self).account,
            final(self).token_id == old(self).token_id,
            final(self).time_register == old(self).time_register,
            final(self).time_start == old(self).time_start,
            final(self).time_end == old(self).time_end,
            rest > 0 ==> final(self).balance == old_balance && final(self).state == old(self).state,
            rest == 0 ==> final(self).balance == 0 && final(self).state == RunningState::Paused,
    {
        if rest > 0 {
            self.balance = old_balance;
        } else {
            self.balance = 0;
            self.state = RunningState::Paused;
        }
    }

    /// Passes where `caller` made the deposit, and is refused with
    /// `AccountNotOwner` otherwise.
    pub fn assert_owner(&self, caller: &String) -> (r: Result<(), ExchangeError>)
        ensures
            caller@ == self.account@ ==> r is Ok,
            caller@ != self.account@ ==> r == Err::<(), ExchangeError>(
                ExchangeError::AccountNotOwner,
            ),
    {
        if *caller == self.account {
            Ok(())
        } else {
            Err(ExchangeError::AccountNotOwner)
        }
    }
}

/// The time for which a deposit has earned interest at `time_secons`.
pub open spec fn spec_elapsed(farm: Tokens, time_secons: u128) -> u128 {
    if time_secons > farm.time_end {
        (farm.time_end - farm.time_start) as u128
    } else if time_secons > farm.time_start {
        (time_secons - farm.time_start) as u128
    } else {
        0
    }
}

/// What is left after a withdrawal, or why it is refused.
pub open spec fn spec_check_withdraw(
    farm: Tokens,
    amount: u128,
    after_time: u128,
    new_balance: u128,
) -> Result<u128, ExchangeError> {
    if new_balance < amount {
        Err(ExchangeError::NotEnoughTokens)
    } else if farm.time_start == 0 {
        Err(ExchangeError::NotStarted)
    } else if after_time <= MIN_TIME {
        Err(ExchangeError::MinimumTime)
    } else {
        Ok((new_balance - amount) as u128)
    }
}

/// The balances of the deposits of one token, added up.
pub open spec fn spec_sum_tokens(farms: Seq<(u128, Tokens)>, token_id: Seq<char>) -> int
    decreases farms.len(),
{
    if farms.len() == 0 {
        0
    } else if farms.last().1.token_id@ == token_id {
        spec_sum_tokens(farms.drop_last(), token_id) + farms.last().1.balance
    } else {
        spec_sum_tokens(farms.drop_last(), token_id)
    }
}

/// The deposits of one account, in the order of the list.
pub open spec fn spec_farm_account(farms: Seq<(u128, Tokens)>, account_id: Seq<char>) -> Seq<
    Tokens,
>
    decreases farms.len(),
{
    if farms.len() == 0 {
        Seq::empty()
    } else if farms.last().1.account@ == account_id {
        spec_farm_account(farms.drop_last(), account_id).push(farms.last().1)
    } else {
        spec_farm_account(farms.drop_last(), account_id)
    }
}

/// The numbers of the deposits of one account, in the order of the list.
pub open spec fn spec_key_farm_account(farms: Seq<(u128, Tokens)>, account_id: Seq<char>) -> Seq<
    u128,
>
    decreases farms.len(),
{
    if farms.len() == 0 {
        Seq::empty()
    } else if farms.last().1.account@ == account_id {
        spec_key_farm_account(farms.drop_last(), account_id).push(farms.last().0)
    } else {
        spec_key_farm_account(farms.drop_last(), account_id)
    }
}

/// The sum of a token's deposits is never negative and never falls when the
/// list grows.
proof fn lemma_sum_tokens_prefix(farms: Seq<(u128, Tokens)>, token_id: Seq<char>, n: int)
    requires
        0 <= n <= farms.len(),
    ensures
        0 <= spec_sum_tokens(farms.take(n), token_id) <= spec_sum_tokens(farms, token_id),
    decreases farms.len(),
{
    if n == farms.len() {
        assert(farms.take(n) =~= farms);
        if n > 0 {
            lemma_sum_tokens_prefix(farms.drop_last(), token_id, n - 1);
            assert(farms.drop_last().take(n - 1) =~= farms.drop_last());
        }
    } else {
        lemma_sum_tokens_prefix(farms.drop_last(), token_id, n);
        assert(farms.drop_last().take(n) =~= farms.take(n));
    }
}

/// Adds up the balances of all deposits of one token. Refused with
/// `Overflow` where the sum leaves 128 bits.
pub fn get_sum_tokens(farms: &Vec<(u128, Tokens)>, token_id: &String) -> (r: Result<
    u128,
    ExchangeError,
>)
    ensures
        spec_sum_tokens(farms@, token_id@) <= u128::MAX ==> r == Ok::<u128, ExchangeError>(
            spec_sum_tokens(farms@, token_id@) as u128,
        ),
        spec_sum_tokens(farms@, token_id@) > u128::MAX ==> r == Err::<u128, ExchangeError>(
            ExchangeError::Overflow,
        ),
{
    let mut sum: u128 = 0;
    let mut i: usize = 0;
    while i < farms.len()
        invariant
            i <= farms.len(),
            sum == spec_sum_tokens(farms@.take(i as int), token_id@),
        decreases farms.len() - i,
    {
        proof {
            assert(farms@.take(i + 1).drop_last() =~= farms@.take(i as int));
            lemma_sum_tokens_prefix(farms@, token_id@, i + 1);
        }
        if farms[i].1.token_id == *token_id {
            if farms[i].1.balance > u128::MAX - sum {
                return Err(ExchangeError::Overflow);
            }
            sum = sum + farms[i].1.balance;
        }
        i = i + 1;
    }
    proof {
        assert(farms@.take(i as int) =~= farms@);
    }
    Ok(sum)
}

/// Picks out the deposits of one account, in the order of the list.
pub fn get_farm_account(farms: &Vec<(u128, Tokens)>, account_id: &String) -> (r: Vec<Tokens>)
    ensures
        r@ == spec_farm_account(farms@, account_id@),
{
    let mut list_token: Vec<Tokens> = Vec::new();
    let mut i: usize = 0;
    while i < farms.len()
        invariant
            i <= farms.len(),
            list_token@ == spec_farm_account(farms@.take(i as int), account_id@),
        decreases farms.len() - i,
    {
        proof {
            assert(farms@.take(i + 1).drop_last() =~= farms@.take(i as int));
        }
        if farms[i].1.account == *account_id {
            list_token.push(farms[i].1.duplicate());
        }
        i = i + 1;
    }
    proof {
        assert(farms@.take(i as int) =~= farms@);
    }
    list_token
}

/// Picks out the numbers of the deposits of one account, in the order of
/// the list.
pub fn get_key_farm_account(farms: &Vec<(u128, Tokens)>, account_id: &String) -> (r: Vec<u128>)
    ensures
        r@ == spec_key_farm_account(farms@, account_id@),
{
    let mut list_token: Vec<u128> = Vec::new();
    let mut i: usize = 0;
    while i < farms.len()
        invariant
            i <= farms.len(),
            list_token@ == spec_key_farm_account(farms@.take(i as int), account_id@),
        decreases farms.len() - i,
    {
        proof {
            assert(farms@.take(i + 1).drop_last() =~= farms@.take(i as int));
        }
        if farms[i].1.account == *account_id {
            list_token.push(farms[i].0);
        }
        i = i + 1;
    }
    proof {
        assert(farms@.take(i as int) =~= farms@);
    }
    list_token
}

} // verus!
