//! An account: an address with a balance and a replay-protection nonce.
//! Accounts are created on first touch with zero balance and zero nonce, and
//! a state entry that reaches zero balance and zero nonce is dropped.

use vstd::prelude::*;
use crate::address::Address;
use crate::u256::U256;

verus! {

#[derive(Clone, Copy, Debug, PartialEq, Eq, Structural)]
pub struct Account {
    pub address: Address,
    pub balance: U256,
    pub nonce: u64,
}

impl Account {
    /// A fresh account with zero balance and zero nonce.
    pub fn new(address: Address) -> (r: Account)
        ensures
            r.address == address,
            r.balance.as_nat() == 0,
            r.nonce == 0,
    {
        Account { address, balance: U256::zero(), nonce: 0 }
    }

    /// An account kept in the state map is live: balance or nonce nonzero.
    pub open spec fn is_live(self) -> bool {
        self.balance.as_nat() != 0 || self.nonce != 0
    }
}

} // verus!
