//! Accounts of the ledger and the (state, candidate) pairs that consensus
//! decides between.

use vstd::prelude::*;
use crate::clock::Hvc;
use crate::transaction::Transaction;

verus! {

/// Relies on std::time::SystemTime::now: nanoseconds since the Unix epoch,
/// saturated into the word. The value depends on the clock, so nothing is
/// promised of it.
#[verifier::external_body]
pub(crate) fn now_unix_nanos() -> u64 {
    std::time::SystemTime::now().duration_since(std::time::SystemTime::UNIX_EPOCH).map(
        |d| u64::try_from(d.as_nanos()).unwrap_or(u64::MAX),
    ).unwrap_or(0)
}

/// A ledger account: balance, clock and the transaction that produced its
/// current state.
pub struct Account {
    pub id: crate::hash::Hash,
    pub balance: u128,
    pub hvc: Hvc,
    pub last_tx_id: crate::hash::Hash,
    pub created: u64,
}

impl Account {
    /// A fresh account with zero balance, created now.
    pub fn create(account_id: &crate::hash::Hash, tx_id: &crate::hash::Hash) -> (r: Self)
        ensures
            r.id@ == account_id@,
            r.balance == 0,
            r.hvc@ == Map::<Seq<u8>, u64>::empty(),
            r.hvc.spec_order() == 0,
            r.last_tx_id@ == tx_id@,
    {
        Account {
            id: *account_id,
            balance: 0,
            hvc: Hvc::new(),
            last_tx_id: *tx_id,
            created: now_unix_nanos(),
        }
    }

    /// Adds to the balance, saturating at the top of the range.
    pub fn increase_balance(&mut self, balance: u128) -> (r: &mut Self)
        ensures
            *final(self) == *final(r),
            r.balance == if old(self).balance + balance <= u128::MAX {
                (old(self).balance + balance) as u128
            } else {
                u128::MAX
            },
            r.id == old(self).id && r.hvc == old(self).hvc && r.last_tx_id == old(self).last_tx_id
                && r.created == old(self).created,
    {
        if balance <= u128::MAX - self.balance {
            self.balance = self.balance + balance;
        } else {
            self.balance = u128::MAX;
        }
        self
    }

    /// Takes from the balance; the caller checks cover first.
    pub fn decrease_balance(&mut self, balance: u128) -> (r: &mut Self)
        requires
            old(self).balance >= balance,
        ensures
            *final(self) == *final(r),
            r.balance == old(self).balance - balance,
            r.id == old(self).id && r.hvc == old(self).hvc && r.last_tx_id == old(self).last_tx_id
                && r.created == old(self).created,
    {
        self.balance = self.balance - balance;
        self
    }

    /// Records the transaction that now heads this account's state.
    pub fn update_last_tx(&mut self, tx_id: &crate::hash::Hash) -> (r: &mut Self)
        ensures
            *final(self) == *final(r),
            r.last_tx_id@ == tx_id@,
            r.id == old(self).id && r.hvc == old(self).hvc && r.balance == old(self).balance
                && r.created == old(self).created,
    {
        self.last_tx_id = *tx_id;
        self
    }

    /// Advances the account's local tick by one.
    pub fn update_hvc(&mut self) -> (r: &mut Self)
        requires
            old(self).hvc.spec_order() < u64::MAX,
        ensures
            *final(self) == *final(r),
            r.hvc.spec_order() == old(self).hvc.spec_order() + 1,
            r.hvc@ == old(self).hvc@,
            r.id == old(self).id && r.balance == old(self).balance && r.last_tx_id == old(
                self,
            ).last_tx_id && r.created == old(self).created,
    {
        self.hvc.order().increment();
        self
    }

    /// The account's local tick.
    pub fn get_hvc(&self) -> (r: u64)
        ensures
            r == self.hvc.spec_order(),
    {
        self.hvc.order_value()
    }
}

impl Clone for Account {
    fn clone(&self) -> (r: Self)
        ensures
            r.id == self.id,
            r.balance == self.balance,
            r.hvc@ == self.hvc@,
            r.hvc.spec_order() == self.hvc.spec_order(),
            r.last_tx_id == self.last_tx_id,
            r.created == self.created,
    {
        Account {
            id: self.id,
            balance: self.balance,
            hvc: self.hvc.clone(),
            last_tx_id: self.last_tx_id,
            created: self.created,
        }
    }
}

/// A (state, candidate) pair: at account state `account_state_id`, the
/// proposed next transaction is `tx`.
pub struct AccountStateChoice {
    /// The account state being contested.
    pub account_state_id: crate::hash::Hash,
    /// The candidate transaction for that state.
    pub tx: Transaction,
}

impl AccountStateChoice {
    /// A pair from its parts.
    pub fn new(account_state_id: crate::hash::Hash, tx: Transaction) -> (r: Self)
        ensures
            r.account_state_id == account_state_id,
            r.tx == tx,
    {
        AccountStateChoice { account_state_id, tx }
    }
}

} // verus!
