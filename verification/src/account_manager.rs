use crate::account::{Account, AccountState};
use crate::decimal::Amount;
use crate::transaction::{Transaction, TransactionDetails, TransactionType};
use std::collections::HashMap;
use vstd::prelude::*;
use vstd::std_specs::hash::*;
use vstd::string::StringExecFns;

verus! {

/// Why the ledger rejects a well-formed transaction.
#[derive(Clone, Copy, Debug, PartialEq, Eq, Structural)]
pub enum AccountManagerError {
    /// The account has been charged back and takes no further transaction.
    AccountLocked,
    /// A deposit, or a withdrawal that is to be recorded, under an id that the
    /// client has used before.
    TransactionExist,
    /// A dispute, resolve or chargeback of an id that the client has not used.
    TransactionNotExist,
    /// A dispute of a transaction that is under dispute already.
    TransactionDisputed,
    /// A resolve or chargeback of a transaction that is not under dispute.
    TransactionNotDisputed,
    /// A withdrawal of more than is available.
    InsufficientFunds,
}

impl AccountManagerError {
    /// The text that describes each variant.
    pub open spec fn message_text(self) -> Seq<char> {
        match self {
            AccountManagerError::AccountLocked => "Account is locked"@,
            AccountManagerError::TransactionExist => "Transaction already exists"@,
            AccountManagerError::TransactionNotExist => "Transaction does not exist"@,
            AccountManagerError::TransactionDisputed => "Transaction already disputed"@,
            AccountManagerError::TransactionNotDisputed => "Transaction not disputed"@,
            AccountManagerError::InsufficientFunds => "Insufficient funds"@,
        }
    }

    /// A description of the error for a reader.
    pub fn message(&self) -> (text: String)
        ensures
            text@ == self.message_text(),
    {
        match self {
            AccountManagerError::AccountLocked => String::from_str("Account is locked"),
            AccountManagerError::TransactionExist => String::from_str("Transaction already exists"),
            AccountManagerError::TransactionNotExist => String::from_str(
                "Transaction does not exist",
            ),
            AccountManagerError::TransactionDisputed => String::from_str(
                "Transaction already disputed",
            ),
            AccountManagerError::TransactionNotDisputed => String::from_str(
                "Transaction not disputed",
            ),
            AccountManagerError::InsufficientFunds => String::from_str("Insufficient funds"),
        }
    }
}

/// Whether the ledger records an accepted withdrawal under its id, as it
/// records a deposit. A recorded withdrawal can be disputed later, and its
/// id cannot be used again.
#[derive(Clone, Copy, Debug, PartialEq, Eq, Structural)]
pub enum WithdrawalPolicy {
    Recorded,
    NotRecorded,
}

/// How many transaction ids there are: `2^32`.
pub open spec fn id_count() -> nat {
    0x1_0000_0000
}

/// The amount recorded under `id`, zero where nothing is.
pub open spec fn recorded_at(transactions: Map<u32, TransactionDetails>, id: u32) -> int {
    if transactions.contains_key(id) {
        transactions[id].amount@
    } else {
        0
    }
}

/// The amount frozen by a dispute of `id`, zero where there is none.
pub open spec fn held_at(transactions: Map<u32, TransactionDetails>, id: u32) -> int {
    if transactions.contains_key(id) && transactions[id].disputed {
        transactions[id].amount@
    } else {
        0
    }
}

/// The sum of the amounts recorded under the ids below `n`.
pub open spec fn recorded_below(transactions: Map<u32, TransactionDetails>, n: nat) -> int
    decreases n,
{
    if n == 0 {
        0
    } else {
        recorded_below(transactions, (n - 1) as nat) + recorded_at(transactions, (n - 1) as u32)
    }
}

/// The sum of the amounts frozen by disputes of the ids below `n`.
pub open spec fn held_below(transactions: Map<u32, TransactionDetails>, n: nat) -> int
    decreases n,
{
    if n == 0 {
        0
    } else {
        held_below(transactions, (n - 1) as nat) + held_at(transactions, (n - 1) as u32)
    }
}

/// The sum of all recorded amounts.
pub open spec fn recorded_sum(transactions: Map<u32, TransactionDetails>) -> int {
    recorded_below(transactions, id_count())
}

/// The sum of the amounts of all transactions under dispute.
pub open spec fn held_sum(transactions: Map<u32, TransactionDetails>) -> int {
    held_below(transactions, id_count())
}

/// Whether no recorded amount is below zero.
pub open spec fn amounts_not_negative(transactions: Map<u32, TransactionDetails>) -> bool {
    forall|id: u32| #[trigger] transactions.contains_key(id) ==> transactions[id].amount@ >= 0
}

/// Whether two histories differ in nothing but what is recorded under `id`.
pub open spec fn same_but_at(
    a: Map<u32, TransactionDetails>,
    b: Map<u32, TransactionDetails>,
    id: u32,
) -> bool {
    forall|k: u32|
        #![trigger a.contains_key(k)]
        #![trigger b.contains_key(k)]
        k != id ==> (a.contains_key(k) <==> b.contains_key(k)) && (a.contains_key(k) ==> a[k]
            == b[k])
}

/// A history without transactions has nothing recorded and nothing frozen.
pub proof fn lemma_sums_of_empty(n: nat)
    ensures
        recorded_below(Map::empty(), n) == 0,
        held_below(Map::empty(), n) == 0,
    decreases n,
{
    if n > 0 {
        lemma_sums_of_empty((n - 1) as nat);
    }
}

/// Where no amount is below zero, the frozen sum lies between zero and the
/// recorded sum, and the recorded sum is at most `n` times the largest amount.
pub proof fn lemma_sums_bounded(transactions: Map<u32, TransactionDetails>, n: nat)
    requires
        n <= id_count(),
        amounts_not_negative(transactions),
    ensures
        0 <= held_below(transactions, n) <= recorded_below(transactions, n) <= n * i64::MAX,
    decreases n,
{
    if n > 0 {
        lemma_sums_bounded(transactions, (n - 1) as nat);
    }
}

/// Two histories that differ under one id alone have sums that differ by
/// what that id contributes.
pub proof fn lemma_sums_change(
    a: Map<u32, TransactionDetails>,
    b: Map<u32, TransactionDetails>,
    id: u32,
    n: nat,
)
    requires
        n <= id_count(),
        same_but_at(a, b, id),
    ensures
        recorded_below(b, n) - recorded_below(a, n) == (if id < n {
            recorded_at(b, id) - recorded_at(a, id)
        } else {
            0
        }),
        held_below(b, n) - held_below(a, n) == (if id < n {
            held_at(b, id) - held_at(a, id)
        } else {
            0
        }),
    decreases n,
{
    if n > 0 {
        lemma_sums_change(a, b, id, (n - 1) as nat);
    }
}

/// One client's ledger as contracts see it: the account, and what is
/// recorded of each transaction that brought an amount and was accepted.
pub struct Ledger {
    pub account: AccountState,
    pub transactions: Map<u32, TransactionDetails>,
}

impl Ledger {
    /// The ledger of a client before its first transaction.
    pub open spec fn new(client_id: u16) -> Ledger {
        Ledger { account: AccountState::new(client_id), transactions: Map::empty() }
    }

    /// The invariant of a ledger. No recorded amount is below zero. What is
    /// held is the sum of the amounts under dispute. The client's funds are
    /// at most the sum of what is recorded, and not below zero unless a
    /// chargeback has taken an amount out of them.
    pub open spec fn wf(self) -> bool {
        &&& amounts_not_negative(self.transactions)
        &&& self.account.held == held_sum(self.transactions)
        &&& self.account.total() <= recorded_sum(self.transactions)
        &&& self.account.total() + (if self.account.locked {
            i64::MAX as int
        } else {
            0
        }) >= 0
    }

    /// Whether the account still takes transactions.
    pub open spec fn active(self) -> Result<(), AccountManagerError> {
        if self.account.locked {
            Err(AccountManagerError::AccountLocked)
        } else {
            Ok(())
        }
    }

    /// The account with other balances.
    pub open spec fn with_balances(self, available: int, held: int) -> AccountState {
        AccountState { available, held, ..self.account }
    }

    /// What is recorded under `id`, with the dispute flag set to `disputed`.
    pub open spec fn flagged(self, id: u32, disputed: bool) -> Map<u32, TransactionDetails> {
        self.transactions.insert(
            id,
            TransactionDetails { amount: self.transactions[id].amount, disputed },
        )
    }

    /// Whether a deposit under `id` is accepted.
    pub open spec fn deposit_result(self, id: u32) -> Result<(), AccountManagerError> {
        if self.account.locked {
            Err(AccountManagerError::AccountLocked)
        } else if self.transactions.contains_key(id) {
            Err(AccountManagerError::TransactionExist)
        } else {
            Ok(())
        }
    }

    /// The ledger after a deposit of `amount` under `id`: where it is
    /// accepted, the amount is available and recorded.
    pub open spec fn after_deposit(self, id: u32, amount: Amount) -> Ledger {
        if self.deposit_result(id) is Ok {
            Ledger {
                account: self.with_balances(self.account.available + amount@, self.account.held),
                transactions: self.transactions.insert(
                    id,
                    TransactionDetails { amount, disputed: false },
                ),
            }
        } else {
            self
        }
    }

    /// Whether a withdrawal of `amount` that is not to be recorded is
    /// accepted.
    pub open spec fn withdraw_result(self, amount: Amount) -> Result<(), AccountManagerError> {
        if self.account.locked {
            Err(AccountManagerError::AccountLocked)
        } else if self.account.available < amount@ {
            Err(AccountManagerError::InsufficientFunds)
        } else {
            Ok(())
        }
    }

    /// The ledger after a withdrawal of `amount` that is not to be recorded:
    /// where it is accepted, the amount is no longer available.
    pub open spec fn after_withdraw(self, amount: Amount) -> Ledger {
        if self.withdraw_result(amount) is Ok {
            Ledger {
                account: self.with_balances(self.account.available - amount@, self.account.held),
                ..self
            }
        } else {
            self
        }
    }

    /// Whether a withdrawal of `amount` that is to be recorded under `id` is
    /// accepted.
    pub open spec fn recorded_withdraw_result(self, id: u32, amount: Amount) -> Result<
        (),
        AccountManagerError,
    > {
        if self.account.locked {
            Err(AccountManagerError::AccountLocked)
        } else if self.transactions.contains_key(id) {
            Err(AccountManagerError::TransactionExist)
        } else if self.account.available < amount@ {
            Err(AccountManagerError::InsufficientFunds)
        } else {
            Ok(())
        }
    }

    /// The ledger after a withdrawal of `amount` that is to be recorded
    /// under `id`: where it is accepted, the amount is no longer available,
    /// and the transaction is recorded.
    pub open spec fn after_recorded_withdraw(self, id: u32, amount: Amount) -> Ledger {
        if self.recorded_withdraw_result(id, amount) is Ok {
            Ledger {
                account: self.with_balances(self.account.available - amount@, self.account.held),
                transactions: self.transactions.insert(
                    id,
                    TransactionDetails { amount, disputed: false },
                ),
            }
        } else {
            self
        }
    }

    /// Whether a dispute of `id` is accepted.
    pub open spec fn dispute_result(self, id: u32) -> Result<(), AccountManagerError> {
        if self.account.locked {
            Err(AccountManagerError::AccountLocked)
        } else if !self.transactions.contains_key(id) {
            Err(AccountManagerError::TransactionNotExist)
        } else if self.transactions[id].disputed {
            Err(AccountManagerError::TransactionDisputed)
        } else {
            Ok(())
        }
    }

    /// The ledger after a dispute of `id`: where it is accepted, the
    /// transaction's amount moves from available to held, and the
    /// transaction is under dispute.
    pub open spec fn after_dispute(self, id: u32) -> Ledger {
        if self.dispute_result(id) is Ok {
            let amount = self.transactions[id].amount@;
            Ledger {
                account: self.with_balances(
                    self.account.available - amount,
                    self.account.held + amount,
                ),
                transactions: self.flagged(id, true),
            }
        } else {
            self
        }
    }

    /// Whether a resolve or a chargeback of `id` is accepted: the two ask
    /// for the same.
    pub open spec fn settle_result(self, id: u32) -> Result<(), AccountManagerError> {
        if self.account.locked {
            Err(AccountManagerError::AccountLocked)
        } else if !self.transactions.contains_key(id) {
            Err(AccountManagerError::TransactionNotExist)
        } else if !self.transactions[id].disputed {
            Err(AccountManagerError::TransactionNotDisputed)
        } else {
            Ok(())
        }
    }

    /// The ledger after a resolve of `id`: where it is accepted, the
    /// transaction's amount moves from held back to available, and the
    /// dispute is over.
    pub open spec fn after_resolve(self, id: u32) -> Ledger {
        if self.settle_result(id) is Ok {
            let amount = self.transactions[id].amount@;
            Ledger {
                account: self.with_balances(
                    self.account.available + amount,
                    self.account.held - amount,
                ),
                transactions: self.flagged(id, false),
            }
        } else {
            self
        }
    }

    /// The ledger after a chargeback of `id`: where it is accepted, the
    /// transaction's amount leaves what is held, the dispute is over, and
    /// the account is locked.
    pub open spec fn after_chargeback(self, id: u32) -> Ledger {
        if self.settle_result(id) is Ok {
            let amount = self.transactions[id].amount@;
            Ledger {
                account: AccountState {
                    held: self.account.held - amount,
                    locked: true,
                    ..self.account
                },
                transactions: self.flagged(id, false),
            }
        } else {
            self
        }
    }

    /// Whether the ledger accepts a well-formed transaction.
    pub open spec fn result_of(self, transaction: Transaction, policy: WithdrawalPolicy) -> Result<
        (),
        AccountManagerError,
    > {
        match transaction.kind {
            TransactionType::Deposit => self.deposit_result(transaction.transaction_id),
            TransactionType::Withdraw => match transaction.amount {
                Some(amount) => match policy {
                    WithdrawalPolicy::Recorded => self.recorded_withdraw_result(
                        transaction.transaction_id,
                        amount,
                    ),
                    WithdrawalPolicy::NotRecorded => self.withdraw_result(amount),
                },
                None => Ok(()),
            },
            TransactionType::Dispute => self.dispute_result(transaction.transaction_id),
            TransactionType::Resolve => self.settle_result(transaction.transaction_id),
            TransactionType::Chargeback => self.settle_result(transaction.transaction_id),
        }
    }

    /// The ledger after a well-formed transaction.
    pub open spec fn after(self, transaction: Transaction, policy: WithdrawalPolicy) -> Ledger {
        match transaction.kind {
            TransactionType::Deposit => match transaction.amount {
                Some(amount) => self.after_deposit(transaction.transaction_id, amount),
                None => self,
            },
            TransactionType::Withdraw => match transaction.amount {
                Some(amount) => match policy {
                    WithdrawalPolicy::Recorded => self.after_recorded_withdraw(
                        transaction.transaction_id,
                        amount,
                    ),
                    WithdrawalPolicy::NotRecorded => self.after_withdraw(amount),
                },
                None => self,
            },
            TransactionType::Dispute => self.after_dispute(transaction.transaction_id),
            TransactionType::Resolve => self.after_resolve(transaction.transaction_id),
            TransactionType::Chargeback => self.after_chargeback(transaction.transaction_id),
        }
    }

    /// A well-formed ledger is well formed after any well-formed transaction.
    pub proof fn lemma_after_keeps_wf(self, transaction: Transaction, policy: WithdrawalPolicy)
        requires
            self.wf(),
            transaction.validation() is Ok,
        ensures
            self.after(transaction, policy).wf(),
            self.after(transaction, policy).account.client_id == self.account.client_id,
    {
        let next = self.after(transaction, policy);
        let id = transaction.transaction_id;
        if self.result_of(transaction, policy) is Ok {
            lemma_sums_bounded(self.transactions, id_count());
            if !(transaction.kind is Withdraw && policy is NotRecorded) {
                lemma_sums_change(self.transactions, next.transactions, id, id_count());
            }
        }
    }

    /// The balances of a well-formed ledger stay far inside what a decimal
    /// holds: there are `2^32` ids, and no amount is above `2^63`.
    pub proof fn lemma_balances_bounded(self)
        requires
            self.wf(),
        ensures
            0 <= self.account.held <= recorded_sum(self.transactions),
            recorded_sum(self.transactions) <= 0x8000_0000_0000_0000_0000_0000,
            -0x8000_0000_0000_0000 <= self.account.total() <= 0x8000_0000_0000_0000_0000_0000,
    {
        lemma_sums_bounded(self.transactions, id_count());
    }
}

/// One client's account together with the history that later disputes need:
/// every deposit that was accepted, and every withdrawal that was accepted
/// and recorded.
pub struct AccountManager {
    pub account: Account,
    pub transactions: HashMap<u32, TransactionDetails>,
}

impl View for AccountManager {
    type V = Ledger;

    open spec fn view(&self) -> Ledger {
        Ledger { account: self.account@, transactions: self.transactions@ }
    }
}

impl AccountManager {
    /// The invariant that every operation keeps.
    pub open spec fn wf(&self) -> bool {
        self@.wf()
    }

    /// A manager for a client without transactions.
    pub fn new(id: u16) -> (manager: AccountManager)
        ensures
            manager@ == Ledger::new(id),
            manager.wf(),
    {
        let manager = AccountManager { account: Account::new(id), transactions: HashMap::new() };
        proof {
            lemma_sums_of_empty(id_count());
        }
        manager
    }

    fn assure_account_active(&self) -> (result: Result<(), AccountManagerError>)
        ensures
            result == self@.active(),
    {
        if self.account.locked {
            Err(AccountManagerError::AccountLocked)
        } else {
            Ok(())
        }
    }

    /// Deposits funds into the account: the amount becomes available, and
    /// the transaction is recorded under its id.
    pub fn deposit(&mut self, transaction_id: u32, amount: Amount) -> (result: Result<
        (),
        AccountManagerError,
    >)
        requires
            old(self).wf(),
            amount@ >= 0,
        ensures
            final(self).wf(),
            result == old(self)@.deposit_result(transaction_id),
            final(self)@ == old(self)@.after_deposit(transaction_id, amount),
    {
        broadcast use group_hash_axioms;

        match self.assure_account_active() {
            Err(e) => {
                return Err(e);
            },
            Ok(()) => {},
        }
        if self.transactions.contains_key(&transaction_id) {
            return Err(AccountManagerError::TransactionExist);
        }
        proof {
            self@.lemma_balances_bounded();
        }
        self.account.available = self.account.available.credit(amount);
        self.transactions.insert(transaction_id, TransactionDetails::new(amount));
        proof {
            lemma_sums_change(
                old(self)@.transactions,
                self@.transactions,
                transaction_id,
                id_count(),
            );
        }
        Ok(())
    }

    /// Withdraws funds from the account, where that much is available,
    /// without a record: such a withdrawal cannot be disputed later.
    pub fn withdraw(&mut self, amount: Amount) -> (result: Result<(), AccountManagerError>)
        requires
            old(self).wf(),
            amount@ >= 0,
        ensures
            final(self).wf(),
            result == old(self)@.withdraw_result(amount),
            final(self)@ == old(self)@.after_withdraw(amount),
    {
        match self.assure_account_active() {
            Err(e) => {
                return Err(e);
            },
            Ok(()) => {},
        }
        proof {
            self@.lemma_balances_bounded();
        }
        if !self.account.available.covers(amount) {
            return Err(AccountManagerError::InsufficientFunds);
        }
        self.account.available = self.account.available.debit(amount);
        Ok(())
    }

    /// Withdraws funds from the account, where that much is available, and
    /// records the transaction under its id, so that it can be disputed
    /// later.
    pub fn withdraw_recorded(&mut self, transaction_id: u32, amount: Amount) -> (result: Result<
        (),
        AccountManagerError,
    >)
        requires
            old(self).wf(),
            amount@ >= 0,
        ensures
            final(self).wf(),
            result == old(self)@.recorded_withdraw_result(transaction_id, amount),
            final(self)@ == old(self)@.after_recorded_withdraw(transaction_id, amount),
    {
        broadcast use group_hash_axioms;

        match self.assure_account_active() {
            Err(e) => {
                return Err(e);
            },
            Ok(()) => {},
        }
        if self.transactions.contains_key(&transaction_id) {
            return Err(AccountManagerError::TransactionExist);
        }
        proof {
            self@.lemma_balances_bounded();
        }
        if !self.account.available.covers(amount) {
            return Err(AccountManagerError::InsufficientFunds);
        }
        self.account.available = self.account.available.debit(amount);
        self.transactions.insert(transaction_id, TransactionDetails::new(amount));
        proof {
            lemma_sums_change(
                old(self)@.transactions,
                self@.transactions,
                transaction_id,
                id_count(),
            );
        }
        Ok(())
    }

    /// Disputes a transaction: its amount moves from available to held.
    pub fn dispute(&mut self, transaction_id: u32) -> (result: Result<(), AccountManagerError>)
        requires
            old(self).wf(),
        ensures
            final(self).wf(),
            result == old(self)@.dispute_result(transaction_id),
            final(self)@ == old(self)@.after_dispute(transaction_id),
    {
        broadcast use group_hash_axioms;

        match self.assure_account_active() {
            Err(e) => {
                return Err(e);
            },
            Ok(()) => {},
        }
        let details = match self.transactions.get(&transaction_id) {
            Some(details) => *details,
            None => {
                return Err(AccountManagerError::TransactionNotExist);
            },
        };
        if details.disputed {
            return Err(AccountManagerError::TransactionDisputed);
        }
        proof {
            self@.lemma_balances_bounded();
        }
        self.transactions.insert(
            transaction_id,
            TransactionDetails { amount: details.amount, disputed: true },
        );
        self.account.available = self.account.available.debit(details.amount);
        self.account.held = self.account.held.credit(details.amount);
        proof {
            lemma_sums_change(
                old(self)@.transactions,
                self@.transactions,
                transaction_id,
                id_count(),
            );
        }
        Ok(())
    }

    /// Resolves a dispute: the transaction's amount moves from held back to
    /// available.
    pub fn resolve(&mut self, transaction_id: u32) -> (result: Result<(), AccountManagerError>)
        requires
            old(self).wf(),
        ensures
            final(self).wf(),
            result == old(self)@.settle_result(transaction_id),
            final(self)@ == old(self)@.after_resolve(transaction_id),
    {
        broadcast use group_hash_axioms;

        match self.assure_account_active() {
            Err(e) => {
                return Err(e);
            },
            Ok(()) => {},
        }
        let details = match self.transactions.get(&transaction_id) {
            Some(details) => *details,
            None => {
                return Err(AccountManagerError::TransactionNotExist);
            },
        };
        if !details.disputed {
            return Err(AccountManagerError::TransactionNotDisputed);
        }
        self.transactions.insert(
            transaction_id,
            TransactionDetails { amount: details.amount, disputed: false },
        );
        proof {
            lemma_sums_change(
                old(self)@.transactions,
                self@.transactions,
                transaction_id,
                id_count(),
            );
            lemma_sums_bounded(self@.transactions, id_count());
        }
        self.account.available = self.account.available.credit(details.amount);
        self.account.held = self.account.held.debit(details.amount);
        Ok(())
    }

    /// Charges a disputed transaction back: its amount leaves what is held,
    /// and the account is locked.
    pub fn chargeback(&mut self, transaction_id: u32) -> (result: Result<(), AccountManagerError>)
        requires
            old(self).wf(),
        ensures
            final(self).wf(),
            result == old(self)@.settle_result(transaction_id),
            final(self)@ == old(self)@.after_chargeback(transaction_id),
    {
        broadcast use group_hash_axioms;

        match self.assure_account_active() {
            Err(e) => {
                return Err(e);
            },
            Ok(()) => {},
        }
        let details = match self.transactions.get(&transaction_id) {
            Some(details) => *details,
            None => {
                return Err(AccountManagerError::TransactionNotExist);
            },
        };
        if !details.disputed {
            return Err(AccountManagerError::TransactionNotDisputed);
        }
        self.transactions.insert(
            transaction_id,
            TransactionDetails { amount: details.amount, disputed: false },
        );
        proof {
            lemma_sums_change(
                old(self)@.transactions,
                self@.transactions,
                transaction_id,
                id_count(),
            );
            lemma_sums_bounded(self@.transactions, id_count());
        }
        self.account.held = self.account.held.debit(details.amount);
        self.account.locked = true;
        Ok(())
    }
}

} // verus!
