//! The ledger of liquidity shares of one pool.

use crate::balance_map::{
    distinct_keys, entries_to_map, entry_keys, entry_values, lemma_map_sum_bounds,
    lemma_map_sum_entries, lemma_map_sum_insert, lemma_seq_sum_prefix, map_sum, seq_sum,
    BalanceMap,
};
use crate::errors::ExchangeError;
use vstd::prelude::*;

verus! {

/// Who holds how many shares of a pool, and how many shares exist in all.
///
/// A holder is registered once it has an entry; an entry may hold zero
/// shares. The total supply always equals the sum of all entries.
pub struct ShareLedger {
    entries: BalanceMap,
    total_supply: u128,
}

impl View for ShareLedger {
    type V = Map<Seq<char>, u128>;

    closed spec fn view(&self) -> Map<Seq<char>, u128> {
        self.entries@
    }
}

impl ShareLedger {
    /// The number of shares in existence, as a specification.
    pub closed spec fn total(&self) -> u128 {
        self.total_supply
    }

    /// Whether the ledger is well formed: its entries are finite in number
    /// and sum to the total supply.
    pub closed spec fn wf(&self) -> bool {
        &&& self.entries.wf()
        &&& map_sum(self.entries@) == self.total_supply
    }

    /// In a well-formed ledger the holdings are finite in number, they add up
    /// to the total supply, and no holder has more than the total supply.
    pub proof fn lemma_total_is_sum(&self)
        requires
            self.wf(),
        ensures
            self@.dom().finite(),
            map_sum(self@) == self.total(),
            forall|holder: Seq<char>| self@.dom().contains(holder) ==> self@[holder] <= self.total(),
    {
        self.entries.lemma_finite();
        assert forall|holder: Seq<char>| self@.dom().contains(holder) implies self@[holder]
            <= self.total() by {
            lemma_map_sum_bounds(self@, holder);
        }
    }

    /// A ledger without holders or shares.
    pub fn new() -> (r: Self)
        ensures
            r.wf(),
            r@ == Map::<Seq<char>, u128>::empty(),
            r.total() == 0,
    {
        ShareLedger { entries: BalanceMap::new(), total_supply: 0 }
    }

    /// The ledger that a list of holdings stands for, or `None` where a
    /// holder occurs twice or the holdings together leave 128 bits.
    pub fn from_vec(entries: &Vec<(String, u128)>) -> (r: Option<Self>)
        ensures
            spec_holdings_fit(entries@) ==> r is Some && r->0.wf() && r->0@ == entries_to_map(
                entry_keys(entries@),
                entry_values(entries@),
            ) && r->0.total() == seq_sum(entry_values(entries@)),
            !spec_holdings_fit(entries@) ==> r is None,
    {
        let map = match BalanceMap::from_vec(entries) {
            Some(map) => map,
            None => {
                return None;
            },
        };
        let mut total: u128 = 0;
        let mut i: usize = 0;
        while i < entries.len()
            invariant
                i <= entries.len(),
                total == seq_sum(entry_values(entries@).take(i as int)),
            decreases entries.len() - i,
        {
            let ghost values = entry_values(entries@);
            proof {
                assert(values.take(i + 1).drop_last() =~= values.take(i as int));
                lemma_seq_sum_prefix(values, i + 1);
            }
            if entries[i].1 > u128::MAX - total {
                return None;
            }
            total = total + entries[i].1;
            i = i + 1;
        }
        proof {
            assert(entry_values(entries@).take(i as int) =~= entry_values(entries@));
            lemma_map_sum_entries(entry_keys(entries@), entry_values(entries@));
        }
        Some(ShareLedger { entries: map, total_supply: total })
    }

    /// The holdings as a list, each holder once.
    pub fn to_vec(&self) -> (r: Vec<(String, u128)>)
        requires
            self.wf(),
        ensures
            distinct_keys(entry_keys(r@)),
            entries_to_map(entry_keys(r@), entry_values(r@)) == self@,
            seq_sum(entry_values(r@)) == self.total(),
    {
        let entries = self.entries.to_vec();
        proof {
            lemma_map_sum_entries(entry_keys(entries@), entry_values(entries@));
        }
        entries
    }

    /// A copy of the ledger.
    pub fn duplicate(&self) -> (r: Self)
        ensures
            r@ == self@,
            r.total() == self.total(),
            self.wf() ==> r.wf(),
    {
        ShareLedger { entries: self.entries.duplicate(), total_supply: self.total_supply }
    }

    /// The number of shares in existence.
    pub fn total_supply(&self) -> (r: u128)
        ensures
            r == self.total(),
    {
        self.total_supply
    }

    /// The number of registered holders.
    pub fn holders(&self) -> (r: u64)
        requires
            self.wf(),
        ensures
            r as nat == self@.dom().len(),
    {
        self.entries.len()
    }

    /// Whether `account_id` is registered.
    pub fn is_registered(&self, account_id: &String) -> (r: bool)
        requires
            self.wf(),
        ensures
            r == self@.dom().contains(account_id@),
    {
        self.entries.contains_key(account_id)
    }

    /// The shares of `account_id`, if it is registered.
    pub fn balance_of(&self, account_id: &String) -> (r: Option<u128>)
        requires
            self.wf(),
        ensures
            r == if self@.dom().contains(account_id@) {
                Some(self@[account_id@])
            } else {
                None
            },
    {
        self.entries.get(account_id)
    }

    /// Registers `account_id` with no shares. Refused with
    /// `AlreadyRegistered` where it is registered already.
    pub fn register(&mut self, account_id: &String) -> (r: Result<(), ExchangeError>)
        requires
            old(self).wf(),
        ensures
            final(self).wf(),
            final(self).total() == old(self).total(),
            old(self)@.dom().contains(account_id@) ==> r == Err::<(), ExchangeError>(
                ExchangeError::AlreadyRegistered,
            ) && final(self)@ == old(self)@,
            !old(self)@.dom().contains(account_id@) ==> r is Ok && final(self)@ == old(self)@.insert(
                account_id@,
                0,
            ),
    {
        if self.entries.contains_key(account_id) {
            return Err(ExchangeError::AlreadyRegistered);
        }
        proof {
            self.entries.lemma_finite();
            lemma_map_sum_insert(self.entries@, account_id@, 0);
        }
        self.entries.insert(account_id, 0);
        Ok(())
    }

    /// Creates `shares` new shares and credits them to `account_id`, which
    /// becomes registered if it was not. Minting nothing changes nothing.
    /// Refused with `Overflow` where the total supply would leave 128 bits.
    pub fn mint(&mut self, account_id: &String, shares: u128) -> (r: Result<(), ExchangeError>)
        requires
            old(self).wf(),
        ensures
            final(self).wf(),
            r == spec_mint(old(self)@, old(self).total(), account_id@, shares).0,
            final(self)@ == spec_mint(old(self)@, old(self).total(), account_id@, shares).1,
            final(self).total() == spec_mint(old(self)@, old(self).total(), account_id@, shares).2,
    {
        if shares == 0 {
            return Ok(());
        }
        if shares > u128::MAX - self.total_supply {
            return Err(ExchangeError::Overflow);
        }
        let previous: u128 = match self.entries.get(account_id) {
            Some(balance) => balance,
            None => 0,
        };
        proof {
            self.entries.lemma_finite();
            lemma_map_sum_bounds(self.entries@, account_id@);
            lemma_map_sum_insert(self.entries@, account_id@, (previous + shares) as u128);
        }
        self.entries.insert(account_id, previous + shares);
        self.total_supply = self.total_supply + shares;
        Ok(())
    }

    /// Destroys `shares` shares of `account_id`, which stays registered even
    /// with none left. Refused with `NoShares` where the account is not
    /// registered, and with `NotEnoughShares` where it holds fewer.
    pub fn burn(&mut self, account_id: &String, shares: u128) -> (r: Result<(), ExchangeError>)
        requires
            old(self).wf(),
        ensures
            final(self).wf(),
            r == spec_burn(old(self)@, old(self).total(), account_id@, shares).0,
            final(self)@ == spec_burn(old(self)@, old(self).total(), account_id@, shares).1,
            final(self).total() == spec_burn(old(self)@, old(self).total(), account_id@, shares).2,
    {
        let previous: u128 = match self.entries.get(account_id) {
            Some(balance) => balance,
            None => {
                return Err(ExchangeError::NoShares);
            },
        };
        if previous < shares {
            return Err(ExchangeError::NotEnoughShares);
        }
        proof {
            self.entries.lemma_finite();
            lemma_map_sum_bounds(self.entries@, account_id@);
            lemma_map_sum_insert(self.entries@, account_id@, (previous - shares) as u128);
        }
        self.entries.insert(account_id, previous - shares);
        self.total_supply = self.total_supply - shares;
        Ok(())
    }
}

/// Whether a list of holdings can be a ledger: no holder occurs twice and
/// the holdings together fit in 128 bits.
pub open spec fn spec_holdings_fit(entries: Seq<(String, u128)>) -> bool {
    distinct_keys(entry_keys(entries)) && seq_sum(entry_values(entries)) <= u128::MAX
}

/// What minting does to the holdings and the total supply: the outcome, the
/// holdings after it and the total supply after it.
pub open spec fn spec_mint(
    holdings: Map<Seq<char>, u128>,
    total: u128,
    account_id: Seq<char>,
    shares: u128,
) -> (Result<(), ExchangeError>, Map<Seq<char>, u128>, u128) {
    if shares == 0 {
        (Ok(()), holdings, total)
    } else if total + shares > u128::MAX {
        (Err(ExchangeError::Overflow), holdings, total)
    } else {
        let previous = if holdings.dom().contains(account_id) {
            holdings[account_id]
        } else {
            0
        };
        (
            Ok(()),
            holdings.insert(account_id, (previous + shares) as u128),
            (total + shares) as u128,
        )
    }
}

/// What burning does to the holdings and the total supply: the outcome, the
/// holdings after it and the total supply after it.
pub open spec fn spec_burn(
    holdings: Map<Seq<char>, u128>,
    total: u128,
    account_id: Seq<char>,
    shares: u128,
) -> (Result<(), ExchangeError>, Map<Seq<char>, u128>, u128) {
    if !holdings.dom().contains(account_id) {
        (Err(ExchangeError::NoShares), holdings, total)
    } else if holdings[account_id] < shares {
        (Err(ExchangeError::NotEnoughShares), holdings, total)
    } else {
        (
            Ok(()),
            holdings.insert(account_id, (holdings[account_id] - shares) as u128),
            (total - shares) as u128,
        )
    }
}

} // verus!
