//! The fees that a swap pays to the exchange and to a referrer.

use crate::errors::ExchangeError;
use crate::utils::FEE_DIVISOR;
use vstd::prelude::*;

verus! {

/// The fee policy of one swap: which part of the pool's growth goes to the
/// exchange and which to a referrer, both in parts of the fee divisor.
pub struct AdminFees {
    /// The part that goes to the exchange.
    pub exchange_fee: u32,
    /// Who receives the exchange's part.
    pub exchange_id: String,
    /// The part that goes to the referrer.
    pub referral_fee: u32,
    /// Who referred the swap, if anybody.
    pub referral_id: Option<String>,
}

/// Passes where the exchange's and the referrer's parts together are no
/// more than the fee divisor, and is refused with `IllegalFee` otherwise.
pub fn check_admin_fee(exchange_fee: u32, referral_fee: u32) -> (r: Result<(), ExchangeError>)
    ensures
        exchange_fee + referral_fee <= FEE_DIVISOR ==> r is Ok,
        exchange_fee + referral_fee > FEE_DIVISOR ==> r == Err::<(), ExchangeError>(
            ExchangeError::IllegalFee,
        ),
{
    if exchange_fee > FEE_DIVISOR || referral_fee > FEE_DIVISOR - exchange_fee {
        Err(ExchangeError::IllegalFee)
    } else {
        Ok(())
    }
}

impl AdminFees {
    /// A policy that pays `exchange_fee` to `exchange_id` and nothing to a
    /// referrer.
    pub fn new(exchange_fee: u32, exchange_id: String) -> (r: Self)
        ensures
            r.exchange_fee == exchange_fee,
            r.exchange_id == exchange_id,
            r.referral_fee == 0,
            r.referral_id is None,
    {
        AdminFees { exchange_fee, exchange_id, referral_fee: 0, referral_id: None }
    }

    /// A policy that pays nothing to anybody.
    pub fn zero(exchange_id: String) -> (r: Self)
        ensures
            r.exchange_fee == 0,
            r.exchange_id == exchange_id,
            r.referral_fee == 0,
            r.referral_id is None,
    {
        AdminFees { exchange_fee: 0, exchange_id, referral_fee: 0, referral_id: None }
    }
}

} // verus!
