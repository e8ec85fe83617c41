//! The ways in which an operation of the exchange is refused.

use vstd::prelude::*;

verus! {

/// Why an operation was refused. A refused operation changes nothing.
#[derive(Clone, Copy, Debug, PartialEq, Eq, Structural)]
pub enum ExchangeError {
    /// The swap fee of a new pool is not below the fee divisor.
    FeeTooLarge,
    /// A new pool was not given exactly two tokens.
    ShouldHaveTwoTokens,
    /// A new pool was given the same token twice.
    DuplicateTokens,
    /// The account already holds a share registration.
    AlreadyRegistered,
    /// The number of amounts differs from the number of tokens in the pool.
    WrongTokenCount,
    /// An amount that must be positive is zero.
    ZeroAmount,
    /// A number of shares that must be positive is zero.
    ZeroShares,
    /// The account holds no share registration.
    NoShares,
    /// The account holds fewer shares than it asked to burn.
    NotEnoughShares,
    /// An amount paid out would be below the minimum the caller accepts.
    MinAmount,
    /// The token is not one of the pool's tokens.
    MissingToken,
    /// The pool cannot price the trade: a reserve or the amount in is zero,
    /// or both sides name the same token.
    Invalid,
    /// A swap names the same token on both sides.
    SameTokenSwap,
    /// A fee share of the exchange and one of the referrer together exceed
    /// the fee divisor.
    IllegalFee,
    /// A new account came with less than the smallest storage deposit.
    DepositLessThanMinStorage,
    /// The account's deposit does not cover the storage it uses.
    InsufficientStorage,
    /// The token is not registered with the account.
    TokenNotRegistered,
    /// The account holds less of the token than it asked to take out.
    NotEnoughTokens,
    /// A token with a balance left cannot be unregistered.
    NonZeroTokenBalance,
    /// A withdrawal must be of a positive amount.
    IllegalWithdrawAmount,
    /// A transfer into an account must be of a positive amount.
    ZeroTransfer,
    /// The account has no storage deposit free to take out.
    NoStorageCanWithdraw,
    /// The account asked for more of its storage deposit than is free.
    StorageWithdrawTooMuch,
    /// The deposit attached to a call does not pay for the storage it took.
    StorageDeposit,
    /// The caller does not own the farm.
    AccountNotOwner,
    /// The farm has not been started.
    NotStarted,
    /// The farm has not run for the minimum time yet.
    MinimumTime,
    /// The exchange is paused.
    ContractPaused,
    /// The caller may not do this.
    NotAllowed,
    /// Shares cannot be minted while the pool holds no liquidity.
    NoLiquidity,
    /// A quantity does not fit in its integer type, or a fee share has a
    /// divisor that rounds down to zero.
    Overflow,
}

impl ExchangeError {
    /// The short code under which the refusal is reported.
    pub fn code(&self) -> (r: &'static str)
        ensures
            r@ == self.spec_code()@,
    {
        match self {
            ExchangeError::FeeTooLarge => "ERR_FEE_TOO_LARGE",
            ExchangeError::ShouldHaveTwoTokens => "ERR_SHOULD_HAVE_2_TOKENS",
            ExchangeError::DuplicateTokens => "ERR_DUPLICATE_TOKENS",
            ExchangeError::AlreadyRegistered => "ERR_LP_ALREADY_REGISTERED",
            ExchangeError::WrongTokenCount => "ERR_WRONG_TOKEN_COUNT",
            ExchangeError::ZeroAmount => "ERR_ZERO_AMOUNT",
            ExchangeError::ZeroShares => "ERR_ZERO_SHARES",
            ExchangeError::NoShares => "ERR_NO_SHARES",
            ExchangeError::NotEnoughShares => "ERR_NOT_ENOUGH_SHARES",
            ExchangeError::MinAmount => "ERR_MIN_AMOUNT",
            ExchangeError::MissingToken => "ERR_MISSING_TOKEN",
            ExchangeError::Invalid => "ERR_INVALID",
            ExchangeError::SameTokenSwap => "ERR_SAME_TOKEN_SWAP",
            ExchangeError::IllegalFee => "ERR_ILLEGAL_FEE",
            ExchangeError::DepositLessThanMinStorage => "E17: deposit less than min storage",
            ExchangeError::InsufficientStorage => "E11: insufficient $NEAR storage deposit",
            ExchangeError::TokenNotRegistered => "E21: token not registered",
            ExchangeError::NotEnoughTokens => "E22: not enough tokens in deposit",
            ExchangeError::NonZeroTokenBalance => "E24: non-zero token balance",
            ExchangeError::IllegalWithdrawAmount => "E29: Illegal withdraw amount",
            ExchangeError::ZeroTransfer => "AMOUNT_MUST_BE_GREATER_THAN_0",
            ExchangeError::NoStorageCanWithdraw => "ERR_NO_STORAGE_CAN_WITHDRAW",
            ExchangeError::StorageWithdrawTooMuch => "ERR_STORAGE_WITHDRAW_TOO_MUCH",
            ExchangeError::StorageDeposit => "ERR_STORAGE_DEPOSIT",
            ExchangeError::AccountNotOwner => "E20: account is not the owner of the farm",
            ExchangeError::NotStarted => "no start",
            ExchangeError::MinimumTime => "need to pass minimum time",
            ExchangeError::ContractPaused => "ERR_CONTRACT_PAUSED",
            ExchangeError::NotAllowed => "ERR_NOT_ALLOWED",
            ExchangeError::NoLiquidity => "ERR_NO_LIQUIDITY",
            ExchangeError::Overflow => "ERR_OVERFLOW",
        }
    }

    /// The code of each refusal, as a specification.
    pub open spec fn spec_code(&self) -> &'static str {
        match self {
            ExchangeError::FeeTooLarge => "ERR_FEE_TOO_LARGE",
            ExchangeError::ShouldHaveTwoTokens => "ERR_SHOULD_HAVE_2_TOKENS",
            ExchangeError::DuplicateTokens => "ERR_DUPLICATE_TOKENS",
            ExchangeError::AlreadyRegistered => "ERR_LP_ALREADY_REGISTERED",
            ExchangeError::WrongTokenCount => "ERR_WRONG_TOKEN_COUNT",
            ExchangeError::ZeroAmount => "ERR_ZERO_AMOUNT",
            ExchangeError::ZeroShares => "ERR_ZERO_SHARES",
            ExchangeError::NoShares => "ERR_NO_SHARES",
            ExchangeError::NotEnoughShares => "ERR_NOT_ENOUGH_SHARES",
            ExchangeError::MinAmount => "ERR_MIN_AMOUNT",
            ExchangeError::MissingToken => "ERR_MISSING_TOKEN",
            ExchangeError::Invalid => "ERR_INVALID",
            ExchangeError::SameTokenSwap => "ERR_SAME_TOKEN_SWAP",
            ExchangeError::IllegalFee => "ERR_ILLEGAL_FEE",
            ExchangeError::DepositLessThanMinStorage => "E17: deposit less than min storage",
            ExchangeError::InsufficientStorage => "E11: insufficient $NEAR storage deposit",
            ExchangeError::TokenNotRegistered => "E21: token not registered",
            ExchangeError::NotEnoughTokens => "E22: not enough tokens in deposit",
            ExchangeError::NonZeroTokenBalance => "E24: non-zero token balance",
            ExchangeError::IllegalWithdrawAmount => "E29: Illegal withdraw amount",
            ExchangeError::ZeroTransfer => "AMOUNT_MUST_BE_GREATER_THAN_0",
            ExchangeError::NoStorageCanWithdraw => "ERR_NO_STORAGE_CAN_WITHDRAW",
            ExchangeError::StorageWithdrawTooMuch => "ERR_STORAGE_WITHDRAW_TOO_MUCH",
            ExchangeError::StorageDeposit => "ERR_STORAGE_DEPOSIT",
            ExchangeError::AccountNotOwner => "E20: account is not the owner of the farm",
            ExchangeError::NotStarted => "no start",
            ExchangeError::MinimumTime => "need to pass minimum time",
            ExchangeError::ContractPaused => "ERR_CONTRACT_PAUSED",
            ExchangeError::NotAllowed => "ERR_NOT_ALLOWED",
            ExchangeError::NoLiquidity => "ERR_NO_LIQUIDITY",
            ExchangeError::Overflow => "ERR_OVERFLOW",
        }
    }
}

} // verus!
