//! A constant-product liquidity exchange with exact integer arithmetic.
//!
//! The heart of the crate is the pool engine: [`simple_pool::SimplePool`]
//! keeps the reserves of two tokens and a ledger of liquidity shares, and
//! offers three operations that change it: adding liquidity, removing
//! liquidity and swapping one token for the other. What each operation does
//! is written down as mathematics in [`pool_state`], and what holds through
//! every sequence of operations is proved in [`laws`].
//!
//! Around the engine stand the 256-bit arithmetic it computes with
//! ([`u256`]), the deposits of the exchange's accounts ([`account`]), the
//! calls that move tokens between deposits and pools ([`exchange`]), and
//! the rules of interest-bearing deposits ([`farm`]).
//!
//! Nothing here reads a clock, a disk or a network: every function takes
//! plain values and gives plain values back, and a refused operation
//! changes nothing.

use crate::errors::ExchangeError;
use vstd::prelude::*;

pub mod account;
pub mod admin_fee;
pub mod balance_map;
pub mod errors;
pub mod exchange;
pub mod farm;
pub mod laws;
pub mod ledger;
pub mod pool;
pub mod pool_state;
pub mod simple_pool;
pub mod u256;
pub mod utils;

verus! {

/// Whether the exchange takes calls that change it.
#[derive(Clone, Copy, Debug, PartialEq, Eq, Structural)]
pub enum RunningState {
    /// The exchange works.
    Running,
    /// The exchange refuses every call that would change a pool or an account.
    Paused,
}

impl RunningState {
    /// The name of the state.
    pub fn to_string(&self) -> (r: String)
        ensures
            r@ == (match self {
                RunningState::Running => "Running"@,
                RunningState::Paused => "Paused"@,
            }),
    {
        match self {
            RunningState::Running => "Running".to_string(),
            RunningState::Paused => "Paused".to_string(),
        }
    }

    /// Passes while the exchange is running, and is refused with
    /// `ContractPaused` while it is paused.
    pub fn assert_running(&self) -> (r: Result<(), ExchangeError>)
        ensures
            *self == RunningState::Running ==> r is Ok,
            *self == RunningState::Paused ==> r == Err::<(), ExchangeError>(ExchangeError::ContractPaused),
    {
        match self {
            RunningState::Running => Ok(()),
            RunningState::Paused => Err(ExchangeError::ContractPaused),
        }
    }

    /// The state after a caller asks for `requested`. The owner and the
    /// guardians may pause the exchange; only the owner may set it running
    /// again. Asking for the state that already holds changes nothing, and is
    /// open to the owner and the guardians alike. Everybody else is refused
    /// with `NotAllowed`.
    pub fn change_state(&self, requested: RunningState, is_owner: bool, is_guardian: bool) -> (r:
        Result<RunningState, ExchangeError>)
        ensures
            r == spec_change_state(*self, requested, is_owner, is_guardian),
    {
        if !(is_owner || is_guardian) {
            return Err(ExchangeError::NotAllowed);
        }
        if *self != requested {
            if requested == RunningState::Running && !is_owner {
                return Err(ExchangeError::NotAllowed);
            }
            Ok(requested)
        } else {
            Ok(*self)
        }
    }
}

/// Who may change the running state, and to what.
pub open spec fn spec_change_state(
    current: RunningState,
    requested: RunningState,
    is_owner: bool,
    is_guardian: bool,
) -> Result<RunningState, ExchangeError> {
    if !is_owner && !is_guardian {
        Err(ExchangeError::NotAllowed)
    } else if current != requested && requested == RunningState::Running && !is_owner {
        Err(ExchangeError::NotAllowed)
    } else {
        Ok(requested)
    }
}

} // verus!
