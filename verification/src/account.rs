use crate::decimal::{is_mantissa, Balance};
use vstd::prelude::*;

verus! {

/// The balances of one client.
#[derive(Clone, Copy, Debug, PartialEq, Eq, Structural)]
pub struct Account {
    pub client_id: u16,
    pub available: Balance,
    pub held: Balance,
    pub locked: bool,
}

/// An account as contracts see it: its balances as integers, in
/// ten-thousandths.
pub struct AccountState {
    pub client_id: u16,
    pub available: int,
    pub held: int,
    pub locked: bool,
}

impl AccountState {
    /// The account that a client has before its first transaction.
    pub open spec fn new(client_id: u16) -> AccountState {
        AccountState { client_id, available: 0, held: 0, locked: false }
    }

    /// The client's funds, frozen or not.
    pub open spec fn total(self) -> int {
        self.available + self.held
    }
}

impl View for Account {
    type V = AccountState;

    open spec fn view(&self) -> AccountState {
        AccountState {
            client_id: self.client_id,
            available: self.available@,
            held: self.held@,
            locked: self.locked,
        }
    }
}

impl Account {
    /// An account is well formed when its two balances and their sum are
    /// balances.
    pub open spec fn wf(self) -> bool {
        &&& self.available.wf()
        &&& self.held.wf()
        &&& is_mantissa(self@.total())
    }

    /// A fresh account: no funds, not locked.
    pub fn new(id: u16) -> (account: Account)
        ensures
            account@ == AccountState::new(id),
            account.wf(),
    {
        Account { client_id: id, available: Balance::zero(), held: Balance::zero(), locked: false }
    }

    /// The client's funds, frozen or not: the sum of the two balances.
    pub fn calculate_total(&self) -> (total: Balance)
        requires
            self.wf(),
        ensures
            total@ == self@.total(),
            total@ == self.available@ + self.held@,
            total.wf(),
    {
        self.available.plus(self.held)
    }
}

} // verus!
