use crate::account::Account;
use crate::account_manager::{AccountManager, AccountManagerError, Ledger, WithdrawalPolicy};
use crate::transaction::{Transaction, TransactionType, TransactionValidationError};
use dashmap::DashMap;
use vstd::prelude::*;
use vstd::string::StringExecFns;

verus! {

/// Why a transaction had no effect.
#[derive(Clone, Copy, Debug, PartialEq, Eq, Structural)]
pub enum EngineError {
    /// The record is malformed; the ledger was not asked.
    TransactionValidationError(TransactionValidationError),
    /// The client's ledger rejected the transaction.
    AccountManagerError(AccountManagerError),
}

impl EngineError {
    /// The text that describes the error: what kind it is, then what the
    /// error inside says.
    pub open spec fn message_text(self) -> Seq<char> {
        match self {
            EngineError::TransactionValidationError(e) => "Transaction validation error: "@
                + e.message_text(),
            EngineError::AccountManagerError(e) => "AccountManager error: "@ + e.message_text(),
        }
    }

    /// A description of the error for a reader.
    pub fn message(&self) -> (text: String)
        ensures
            text@ == self.message_text(),
    {
        match self {
            EngineError::TransactionValidationError(e) => {
                let inner = e.message();
                String::from_str("Transaction validation error: ").concat(inner.as_str())
            },
            EngineError::AccountManagerError(e) => {
                let inner = e.message();
                String::from_str("AccountManager error: ").concat(inner.as_str())
            },
        }
    }
}

impl From<TransactionValidationError> for EngineError {
    fn from(error: TransactionValidationError) -> (result: EngineError) {
        EngineError::TransactionValidationError(error)
    }
}

impl vstd::std_specs::convert::FromSpecImpl<TransactionValidationError> for EngineError {
    open spec fn obeys_from_spec() -> bool {
        true
    }

    open spec fn from_spec(error: TransactionValidationError) -> EngineError {
        EngineError::TransactionValidationError(error)
    }
}

impl From<AccountManagerError> for EngineError {
    fn from(error: AccountManagerError) -> (result: EngineError) {
        EngineError::AccountManagerError(error)
    }
}

impl vstd::std_specs::convert::FromSpecImpl<AccountManagerError> for EngineError {
    open spec fn obeys_from_spec() -> bool {
        true
    }

    open spec fn from_spec(error: AccountManagerError) -> EngineError {
        EngineError::AccountManagerError(error)
    }
}

/// `dashmap::DashMap`, as a value that contracts do not look into: what it
/// holds goes by the name `ledgers_of`.
#[verifier::external_type_specification]
#[verifier::external_body]
#[verifier::reject_recursive_types(K)]
#[verifier::reject_recursive_types(V)]
#[verifier::reject_recursive_types(S)]
pub struct ExDashMap<K, V, S>(DashMap<K, V, S>);

/// What a `DashMap` of account managers holds: under each key that has an
/// entry, the ledger that the entry's manager stands for.
pub uninterp spec fn ledgers_of(accounts: DashMap<u16, AccountManager>) -> Map<u16, Ledger>;

/// Calls `DashMap::new`, which gives a map without entries.
#[verifier::external_body]
fn new_accounts() -> (created: DashMap<u16, AccountManager>)
    ensures
        ledgers_of(created) =~= Map::empty(),
{
    DashMap::new()
}

/// Calls `DashMap::remove`, which takes the entry of a key out of the map
/// and hands its value back where there was one; the other entries stay.
#[verifier::external_body]
fn remove_manager(accounts: &mut DashMap<u16, AccountManager>, client_id: u16) -> (manager: Option<
    AccountManager,
>)
    ensures
        ledgers_of(*final(accounts)) == ledgers_of(*old(accounts)).remove(client_id),
        match manager {
            Some(manager) => ledgers_of(*old(accounts)).contains_key(client_id) && manager@
                == ledgers_of(*old(accounts))[client_id],
            None => !ledgers_of(*old(accounts)).contains_key(client_id),
        },
{
    accounts.remove(&client_id).map(|entry| entry.1)
}

/// Calls `DashMap::insert`, which puts a value under a key, in place of the
/// one that the key had; the other entries stay.
#[verifier::external_body]
fn insert_manager(
    accounts: &mut DashMap<u16, AccountManager>,
    client_id: u16,
    manager: AccountManager,
)
    ensures
        ledgers_of(*final(accounts)) == ledgers_of(*old(accounts)).insert(client_id, manager@),
{
    accounts.insert(client_id, manager);
}

/// Calls `DashMap::iter`, which visits every entry of the map once, in an
/// order that is not fixed. Of each entry it hands out the key and the
/// account of the manager.
#[verifier::external_body]
fn collect_accounts(accounts: &DashMap<u16, AccountManager>) -> (entries: Vec<(u16, Account)>)
    ensures
        entries@.len() == ledgers_of(*accounts).dom().len(),
        forall|i: int|
            0 <= i < entries@.len() ==> ledgers_of(*accounts).contains_key(
                (#[trigger] entries@[i]).0,
            ) && entries@[i].1@ == ledgers_of(*accounts)[entries@[i].0].account,
        forall|i: int, j: int|
            0 <= i < j < entries@.len() ==> (#[trigger] entries@[i]).0 != (#[trigger] entries@[j]).0,
{
    accounts.iter().map(|entry| (*entry.key(), entry.value().account)).collect()
}

/// The ledger that a client has: its own where it has had a transaction, a
/// fresh one else.
pub open spec fn ledger_of(ledgers: Map<u16, Ledger>, client_id: u16) -> Ledger {
    if ledgers.contains_key(client_id) {
        ledgers[client_id]
    } else {
        Ledger::new(client_id)
    }
}

/// Whether a transaction is accepted: it has to be well formed, and the
/// client's ledger has to accept it.
pub open spec fn transaction_result(
    ledgers: Map<u16, Ledger>,
    transaction: Transaction,
    policy: WithdrawalPolicy,
) -> Result<(), EngineError> {
    match transaction.validation() {
        Err(e) => Err(EngineError::TransactionValidationError(e)),
        Ok(()) => match ledger_of(ledgers, transaction.client_id).result_of(transaction, policy) {
            Err(e) => Err(EngineError::AccountManagerError(e)),
            Ok(()) => Ok(()),
        },
    }
}

/// The ledgers after a transaction. A malformed one changes nothing. A
/// well-formed one gives its client a ledger, where it had none, and that
/// ledger takes the transaction.
pub open spec fn ledgers_after(
    ledgers: Map<u16, Ledger>,
    transaction: Transaction,
    policy: WithdrawalPolicy,
) -> Map<u16, Ledger> {
    if transaction.validation() is Ok {
        ledgers.insert(
            transaction.client_id,
            ledger_of(ledgers, transaction.client_id).after(transaction, policy),
        )
    } else {
        ledgers
    }
}

/// The ledgers after a run of input items, taken in their order. An item
/// that could not be read is passed over.
pub open spec fn ledgers_after_all<E>(
    ledgers: Map<u16, Ledger>,
    items: Seq<Result<Transaction, E>>,
    policy: WithdrawalPolicy,
) -> Map<u16, Ledger>
    decreases items.len(),
{
    if items.len() == 0 {
        ledgers
    } else {
        let before = ledgers_after_all(ledgers, items.drop_last(), policy);
        match items.last() {
            Ok(transaction) => ledgers_after(before, transaction, policy),
            Err(_) => before,
        }
    }
}

/// The transactions of a run that had no effect, in their order: the id of
/// each, and why.
pub open spec fn rejections<E>(
    ledgers: Map<u16, Ledger>,
    items: Seq<Result<Transaction, E>>,
    policy: WithdrawalPolicy,
) -> Seq<(u32, EngineError)>
    decreases items.len(),
{
    if items.len() == 0 {
        Seq::empty()
    } else {
        let earlier = rejections(ledgers, items.drop_last(), policy);
        match items.last() {
            Ok(transaction) => match transaction_result(
                ledgers_after_all(ledgers, items.drop_last(), policy),
                transaction,
                policy,
            ) {
                Err(e) => earlier.push((transaction.transaction_id, e)),
                Ok(()) => earlier,
            },
            Err(_) => earlier,
        }
    }
}

/// The invariant of a set of ledgers: there are finitely many, each is well
/// formed, and each stands under the id of its own client.
pub open spec fn ledgers_wf(ledgers: Map<u16, Ledger>) -> bool {
    &&& ledgers.dom().finite()
    &&& forall|client_id: u16| #[trigger]
        ledgers.contains_key(client_id) ==> ledgers[client_id].wf()
            && ledgers[client_id].account.client_id == client_id
}

/// The ledger of every client, and the one entry point that applies a
/// transaction to it.
pub struct Engine {
    accounts: DashMap<u16, AccountManager>,
    policy: WithdrawalPolicy,
}

impl View for Engine {
    type V = Map<u16, Ledger>;

    closed spec fn view(&self) -> Map<u16, Ledger> {
        ledgers_of(self.accounts)
    }
}

impl Engine {
    /// The invariant that every operation keeps.
    pub open spec fn wf(&self) -> bool {
        ledgers_wf(self@)
    }

    /// Whether the engine records withdrawals.
    pub closed spec fn policy(&self) -> WithdrawalPolicy {
        self.policy
    }

    /// An engine that knows no client, and records withdrawals.
    pub fn new() -> (engine: Engine)
        ensures
            engine@ == Map::<u16, Ledger>::empty(),
            engine.policy() == WithdrawalPolicy::Recorded,
            engine.wf(),
    {
        Engine::with_policy(WithdrawalPolicy::Recorded)
    }

    /// An engine that knows no client, and treats withdrawals as `policy`
    /// says.
    pub fn with_policy(policy: WithdrawalPolicy) -> (engine: Engine)
        ensures
            engine@ == Map::<u16, Ledger>::empty(),
            engine.policy() == policy,
            engine.wf(),
    {
        Engine { accounts: new_accounts(), policy }
    }

    /// Whether the engine records withdrawals.
    pub fn withdrawal_policy(&self) -> (policy: WithdrawalPolicy)
        ensures
            policy == self.policy(),
    {
        self.policy
    }

    /// The account of every client that has had a well-formed transaction,
    /// in the order of the client ids.
    pub fn accounts(&self) -> (accounts: Vec<Account>)
        requires
            self.wf(),
        ensures
            accounts@.len() == self@.dom().len(),
            forall|i: int|
                0 <= i < accounts@.len() ==> self@.contains_key((#[trigger] accounts@[i]).client_id)
                    && accounts@[i]@ == self@[accounts@[i].client_id].account
                    && accounts@[i].wf(),
            forall|i: int, j: int|
                0 <= i < j < accounts@.len() ==> (#[trigger] accounts@[i]).client_id
                    < (#[trigger] accounts@[j]).client_id,
    {
        let entries = collect_accounts(&self.accounts);
        let ghost ledgers = self@;
        let mut accounts: Vec<Account> = Vec::new();
        let mut i: usize = 0;
        while i < entries.len()
            invariant
                0 <= i <= entries.len(),
                accounts@.len() == i,
                ledgers == self@,
                ledgers_wf(ledgers),
                forall|k: int|
                    0 <= k < entries@.len() ==> ledgers.contains_key((#[trigger] entries@[k]).0)
                        && entries@[k].1@ == ledgers[entries@[k].0].account,
                forall|k: int| 0 <= k < i ==> (#[trigger] accounts@[k]) == entries@[k].1,
            decreases entries.len() - i,
        {
            accounts.push(entries[i].1);
            i += 1;
        }
        assert forall|k: int| 0 <= k < accounts@.len() implies listed(
            ledgers,
            #[trigger] accounts@[k],
        ) && accounts@[k].client_id == entries@[k].0 by {
            let client_id = entries@[k].0;
            ledgers[client_id].lemma_balances_bounded();
        }
        sort_by_client(&mut accounts, Ghost(ledgers));
        accounts
    }

    /// Applies one transaction. A malformed one is turned away before any
    /// ledger is touched. A well-formed one goes to the ledger of its
    /// client, which is opened where the client had none.
    pub fn process_transaction(&mut self, transaction: Transaction) -> (result: Result<
        (),
        EngineError,
    >)
        requires
            old(self).wf(),
        ensures
            final(self).wf(),
            final(self).policy() == old(self).policy(),
            result == transaction_result(old(self)@, transaction, old(self).policy()),
            final(self)@ == ledgers_after(old(self)@, transaction, old(self).policy()),
    {
        match transaction.validate() {
            Err(e) => {
                return Err(EngineError::from(e));
            },
            Ok(()) => {},
        }
        let client_id = transaction.client_id;
        let policy = self.policy;
        // Get existing or create new account manager
        let mut account_manager = match remove_manager(&mut self.accounts, client_id) {
            Some(manager) => manager,
            None => AccountManager::new(client_id),
        };
        // Process the transaction
        let transaction_id = transaction.transaction_id;
        let result = match transaction.kind {
            TransactionType::Deposit => match transaction.get_amount_or_error() {
                Ok(amount) => match account_manager.deposit(transaction_id, amount) {
                    Ok(()) => Ok(()),
                    Err(e) => Err(EngineError::from(e)),
                },
                Err(e) => Err(EngineError::from(e)),
            },
            TransactionType::Withdraw => match transaction.get_amount_or_error() {
                Ok(amount) => {
                    let outcome = match policy {
                        WithdrawalPolicy::Recorded => account_manager.withdraw_recorded(
                            transaction_id,
                            amount,
                        ),
                        WithdrawalPolicy::NotRecorded => account_manager.withdraw(amount),
                    };
                    match outcome {
                        Ok(()) => Ok(()),
                        Err(e) => Err(EngineError::from(e)),
                    }
                },
                Err(e) => Err(EngineError::from(e)),
            },
            TransactionType::Dispute => match account_manager.dispute(transaction_id) {
                Ok(()) => Ok(()),
                Err(e) => Err(EngineError::from(e)),
            },
            TransactionType::Resolve => match account_manager.resolve(transaction_id) {
                Ok(()) => Ok(()),
                Err(e) => Err(EngineError::from(e)),
            },
            TransactionType::Chargeback => match account_manager.chargeback(transaction_id) {
                Ok(()) => Ok(()),
                Err(e) => Err(EngineError::from(e)),
            },
        };
        insert_manager(&mut self.accounts, client_id, account_manager);
        result
    }

    /// Applies a run of input items in their order and hands back, for each
    /// transaction that had no effect, its id and the reason. An item that
    /// could not be read is passed over. No failure stops the run.
    pub fn process_transactions<E>(&mut self, transactions: Vec<Result<Transaction, E>>) -> (rejected:
        Vec<(u32, EngineError)>)
        requires
            old(self).wf(),
        ensures
            final(self).wf(),
            final(self).policy() == old(self).policy(),
            final(self)@ == ledgers_after_all(old(self)@, transactions@, old(self).policy()),
            rejected@ == rejections(old(self)@, transactions@, old(self).policy()),
    {
        let mut rejected: Vec<(u32, EngineError)> = Vec::new();
        let mut i: usize = 0;
        while i < transactions.len()
            invariant
                0 <= i <= transactions.len(),
                self.wf(),
                self.policy() == old(self).policy(),
                self@ == ledgers_after_all(
                    old(self)@,
                    transactions@.take(i as int),
                    old(self).policy(),
                ),
                rejected@ == rejections(
                    old(self)@,
                    transactions@.take(i as int),
                    old(self).policy(),
                ),
            decreases transactions.len() - i,
        {
            assert(transactions@.take(i + 1).drop_last() =~= transactions@.take(i as int));
            match &transactions[i] {
                Ok(transaction) => {
                    let transaction_id = transaction.transaction_id;
                    match self.process_transaction(*transaction) {
                        Err(e) => {
                            rejected.push((transaction_id, e));
                        },
                        Ok(()) => {},
                    }
                },
                Err(_) => {},
            }
            i += 1;
        }
        assert(transactions@.take(i as int) =~= transactions@);
        rejected
    }
}

/// Whether `account` is the account of a ledger among `ledgers`, under its
/// own client id.
pub open spec fn listed(ledgers: Map<u16, Ledger>, account: Account) -> bool {
    &&& ledgers.contains_key(account.client_id)
    &&& account@ == ledgers[account.client_id].account
    &&& account.wf()
}

/// Whether each of the accounts is listed among `ledgers`.
pub open spec fn all_listed(ledgers: Map<u16, Ledger>, accounts: Seq<Account>) -> bool {
    forall|i: int| 0 <= i < accounts.len() ==> listed(ledgers, #[trigger] accounts[i])
}

/// Whether no two of the accounts belong to one client.
pub open spec fn clients_differ(accounts: Seq<Account>) -> bool {
    forall|i: int, j: int|
        0 <= i < j < accounts.len() ==> (#[trigger] accounts[i]).client_id
            != (#[trigger] accounts[j]).client_id
}

/// Whether the first `n` accounts stand in the order of their client ids.
pub open spec fn ordered_below(accounts: Seq<Account>, n: int) -> bool {
    forall|i: int, j: int|
        0 <= i < j < n ==> (#[trigger] accounts[i]).client_id
            <= (#[trigger] accounts[j]).client_id
}

/// Puts accounts in the order of their client ids, by insertion.
fn sort_by_client(accounts: &mut Vec<Account>, Ghost(ledgers): Ghost<Map<u16, Ledger>>)
    requires
        all_listed(ledgers, old(accounts)@),
        clients_differ(old(accounts)@),
    ensures
        final(accounts)@.len() == old(accounts)@.len(),
        all_listed(ledgers, final(accounts)@),
        clients_differ(final(accounts)@),
        ordered_below(final(accounts)@, final(accounts)@.len() as int),
{
    let mut i: usize = 1;
    while i < accounts.len()
        invariant
            accounts@.len() == old(accounts)@.len(),
            1 <= i,
            all_listed(ledgers, accounts@),
            clients_differ(accounts@),
            i <= accounts@.len() ==> ordered_below(accounts@, i as int),
            i > accounts@.len() ==> accounts@.len() == 0,
        decreases accounts.len() - i,
    {
        let mut j: usize = i;
        while j > 0 && accounts[j - 1].client_id > accounts[j].client_id
            invariant
                accounts@.len() == old(accounts)@.len(),
                0 <= j <= i < accounts@.len(),
                all_listed(ledgers, accounts@),
                clients_differ(accounts@),
                forall|a: int, b: int|
                    0 <= a < b <= i && a != j && b != j ==> (#[trigger] accounts@[a]).client_id
                        <= (#[trigger] accounts@[b]).client_id,
                forall|b: int|
                    j < b <= i ==> accounts@[j as int].client_id
                        <= (#[trigger] accounts@[b]).client_id,
            decreases j,
        {
            let lower = accounts[j - 1];
            let upper = accounts[j];
            accounts.set(j - 1, upper);
            accounts.set(j, lower);
            j -= 1;
        }
        i += 1;
    }
}

} // verus!
