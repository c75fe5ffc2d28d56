use crate::account_manager::{
    held_sum, id_count, lemma_sums_of_empty, AccountManagerError, Ledger, WithdrawalPolicy,
};
use crate::decimal::{is_mantissa, Amount};
use crate::engine::{
    ledger_of, ledgers_after, ledgers_after_all, ledgers_wf, transaction_result, EngineError,
};
use crate::transaction::Transaction;
use vstd::prelude::*;

verus! {

/// Every transaction leaves the ledgers well formed.
pub proof fn transaction_keeps_ledgers_well_formed(
    ledgers: Map<u16, Ledger>,
    transaction: Transaction,
    policy: WithdrawalPolicy,
)
    requires
        ledgers_wf(ledgers),
    ensures
        ledgers_wf(ledgers_after(ledgers, transaction, policy)),
{
    if transaction.validation() is Ok {
        let client_id = transaction.client_id;
        if !ledgers.contains_key(client_id) {
            lemma_sums_of_empty(id_count());
        }
        ledger_of(ledgers, client_id).lemma_after_keeps_wf(transaction, policy);
    }
}

/// Every run of input items leaves the ledgers well formed.
pub proof fn run_keeps_ledgers_well_formed<E>(
    ledgers: Map<u16, Ledger>,
    items: Seq<Result<Transaction, E>>,
    policy: WithdrawalPolicy,
)
    requires
        ledgers_wf(ledgers),
    ensures
        ledgers_wf(ledgers_after_all(ledgers, items, policy)),
    decreases items.len(),
{
    if items.len() > 0 {
        run_keeps_ledgers_well_formed(ledgers, items.drop_last(), policy);
        match items.last() {
            Ok(transaction) => {
                transaction_keeps_ledgers_well_formed(
                    ledgers_after_all(ledgers, items.drop_last(), policy),
                    transaction,
                    policy,
                );
            },
            Err(_) => {},
        }
    }
}

/// After every transaction, for every account: the total is what is
/// available plus what is held, each of the three is a balance that a
/// decimal holds, and what is held is the sum of the amounts under dispute.
pub proof fn total_is_available_plus_held(
    ledgers: Map<u16, Ledger>,
    transaction: Transaction,
    policy: WithdrawalPolicy,
    client_id: u16,
)
    requires
        ledgers_wf(ledgers),
        ledgers_after(ledgers, transaction, policy).contains_key(client_id),
    ensures
        ({
            let ledger = ledgers_after(ledgers, transaction, policy)[client_id];
            &&& ledger.account.total() == ledger.account.available + ledger.account.held
            &&& is_mantissa(ledger.account.total())
            &&& is_mantissa(ledger.account.available)
            &&& is_mantissa(ledger.account.held)
            &&& ledger.account.held == held_sum(ledger.transactions)
        }),
{
    transaction_keeps_ledgers_well_formed(ledgers, transaction, policy);
    ledgers_after(ledgers, transaction, policy)[client_id].lemma_balances_bounded();
}

/// A dispute of a transaction that is under dispute is rejected, and the
/// ledger stays as it is. An account that is not locked names the reason:
/// the transaction is disputed already.
pub proof fn dispute_of_disputed_is_rejected(ledger: Ledger, id: u32)
    requires
        ledger.transactions.contains_key(id),
        ledger.transactions[id].disputed,
    ensures
        ledger.dispute_result(id) is Err,
        !ledger.account.locked ==> ledger.dispute_result(id) == Err::<(), AccountManagerError>(
            AccountManagerError::TransactionDisputed,
        ),
        ledger.after_dispute(id) == ledger,
{
}

/// A dispute that was accepted cannot be made again: the second one is
/// rejected as disputed already, and changes nothing.
pub proof fn dispute_cannot_be_repeated(ledger: Ledger, id: u32)
    requires
        ledger.dispute_result(id) is Ok,
    ensures
        ledger.after_dispute(id).dispute_result(id) == Err::<(), AccountManagerError>(
            AccountManagerError::TransactionDisputed,
        ),
        ledger.after_dispute(id).after_dispute(id) == ledger.after_dispute(id),
{
}

/// A resolve or chargeback of a transaction that is unknown or not under
/// dispute is rejected, and the ledger stays as it is. An account that is
/// not locked names the reason.
pub proof fn settlement_without_dispute_is_rejected(ledger: Ledger, id: u32)
    requires
        !ledger.transactions.contains_key(id) || !ledger.transactions[id].disputed,
    ensures
        ledger.settle_result(id) is Err,
        !ledger.account.locked && !ledger.transactions.contains_key(id) ==> ledger.settle_result(id)
            == Err::<(), AccountManagerError>(AccountManagerError::TransactionNotExist),
        !ledger.account.locked && ledger.transactions.contains_key(id) ==> ledger.settle_result(id)
            == Err::<(), AccountManagerError>(AccountManagerError::TransactionNotDisputed),
        ledger.after_resolve(id) == ledger,
        ledger.after_chargeback(id) == ledger,
{
}

/// A dispute of a transaction that the client never made is rejected, and
/// the ledger stays as it is.
pub proof fn dispute_of_unknown_is_rejected(ledger: Ledger, id: u32)
    requires
        !ledger.transactions.contains_key(id),
    ensures
        ledger.dispute_result(id) is Err,
        !ledger.account.locked ==> ledger.dispute_result(id) == Err::<(), AccountManagerError>(
            AccountManagerError::TransactionNotExist,
        ),
        ledger.after_dispute(id) == ledger,
{
}

/// A withdrawal of more than is available is rejected, and the ledger
/// stays as it is, whether withdrawals are recorded or not. Where the
/// account is not locked and the id is free, the reason is insufficient
/// funds.
pub proof fn withdrawal_beyond_available_is_rejected(ledger: Ledger, id: u32, amount: Amount)
    requires
        amount@ > ledger.account.available,
    ensures
        ledger.withdraw_result(amount) is Err,
        ledger.recorded_withdraw_result(id, amount) is Err,
        !ledger.account.locked ==> ledger.withdraw_result(amount) == Err::<(), AccountManagerError>(
            AccountManagerError::InsufficientFunds,
        ),
        !ledger.account.locked && !ledger.transactions.contains_key(id)
            ==> ledger.recorded_withdraw_result(id, amount) == Err::<(), AccountManagerError>(
            AccountManagerError::InsufficientFunds,
        ),
        ledger.after_withdraw(amount) == ledger,
        ledger.after_recorded_withdraw(id, amount) == ledger,
{
}

/// A transaction that is rejected, for whatever reason, leaves every
/// ledger that there was as it is.
pub proof fn rejected_transaction_changes_no_ledger(
    ledgers: Map<u16, Ledger>,
    transaction: Transaction,
    policy: WithdrawalPolicy,
    client_id: u16,
)
    requires
        transaction_result(ledgers, transaction, policy) is Err,
        ledgers.contains_key(client_id),
    ensures
        ledgers_after(ledgers, transaction, policy).contains_key(client_id),
        ledgers_after(ledgers, transaction, policy)[client_id] == ledgers[client_id],
{
}

/// A locked account rejects every transaction of its client, and no
/// transaction of any client changes its ledger.
pub proof fn locked_account_is_frozen(
    ledgers: Map<u16, Ledger>,
    transaction: Transaction,
    policy: WithdrawalPolicy,
    client_id: u16,
)
    requires
        ledgers.contains_key(client_id),
        ledgers[client_id].account.locked,
    ensures
        transaction.client_id == client_id ==> transaction_result(ledgers, transaction, policy)
            is Err,
        transaction.client_id == client_id && transaction.validation() is Ok ==> transaction_result(
            ledgers,
            transaction,
            policy,
        ) == Err::<(), EngineError>(
            EngineError::AccountManagerError(AccountManagerError::AccountLocked),
        ),
        ledgers_after(ledgers, transaction, policy).contains_key(client_id),
        ledgers_after(ledgers, transaction, policy)[client_id] == ledgers[client_id],
{
}

/// Once an account is locked, no run of input items changes its balances
/// or unlocks it: its ledger stays as it is.
pub proof fn locked_account_stays_frozen<E>(
    ledgers: Map<u16, Ledger>,
    items: Seq<Result<Transaction, E>>,
    policy: WithdrawalPolicy,
    client_id: u16,
)
    requires
        ledgers.contains_key(client_id),
        ledgers[client_id].account.locked,
    ensures
        ledgers_after_all(ledgers, items, policy).contains_key(client_id),
        ledgers_after_all(ledgers, items, policy)[client_id] == ledgers[client_id],
    decreases items.len(),
{
    if items.len() > 0 {
        locked_account_stays_frozen(ledgers, items.drop_last(), policy, client_id);
        match items.last() {
            Ok(transaction) => {
                locked_account_is_frozen(
                    ledgers_after_all(ledgers, items.drop_last(), policy),
                    transaction,
                    policy,
                    client_id,
                );
            },
            Err(_) => {},
        }
    }
}

/// Whether the ledger takes the transaction: it is well formed, and the
/// ledger accepts it.
pub open spec fn accepted(ledger: Ledger, transaction: Transaction, policy: WithdrawalPolicy) -> bool {
    transaction.validation() is Ok && ledger.result_of(transaction, policy) is Ok
}

/// What an accepted deposit adds to the funds of its client; zero for any
/// other transaction.
pub open spec fn deposit_of(ledger: Ledger, transaction: Transaction, policy: WithdrawalPolicy) -> int {
    match transaction.amount {
        Some(amount) => if transaction.kind is Deposit && accepted(ledger, transaction, policy) {
            amount@
        } else {
            0
        },
        None => 0,
    }
}

/// What an accepted withdrawal takes from the funds of its client; zero
/// for any other transaction.
pub open spec fn withdrawal_of(
    ledger: Ledger,
    transaction: Transaction,
    policy: WithdrawalPolicy,
) -> int {
    match transaction.amount {
        Some(amount) => if transaction.kind is Withdraw && accepted(ledger, transaction, policy) {
            amount@
        } else {
            0
        },
        None => 0,
    }
}

/// What an accepted chargeback takes from the funds of its client: the
/// amount of the disputed transaction; zero for any other transaction.
pub open spec fn chargeback_of(
    ledger: Ledger,
    transaction: Transaction,
    policy: WithdrawalPolicy,
) -> int {
    if transaction.kind is Chargeback && accepted(ledger, transaction, policy) {
        ledger.transactions[transaction.transaction_id].amount@
    } else {
        0
    }
}

/// The sum of the deposits of a client that a run accepted.
pub open spec fn deposited<E>(
    ledgers: Map<u16, Ledger>,
    items: Seq<Result<Transaction, E>>,
    policy: WithdrawalPolicy,
    client_id: u16,
) -> int
    decreases items.len(),
{
    if items.len() == 0 {
        0
    } else {
        let before = ledgers_after_all(ledgers, items.drop_last(), policy);
        deposited(ledgers, items.drop_last(), policy, client_id) + (match items.last() {
            Ok(transaction) => if transaction.client_id == client_id {
                deposit_of(ledger_of(before, client_id), transaction, policy)
            } else {
                0
            },
            Err(_) => 0,
        })
    }
}

/// The sum of the withdrawals of a client that a run accepted.
pub open spec fn withdrawn<E>(
    ledgers: Map<u16, Ledger>,
    items: Seq<Result<Transaction, E>>,
    policy: WithdrawalPolicy,
    client_id: u16,
) -> int
    decreases items.len(),
{
    if items.len() == 0 {
        0
    } else {
        let before = ledgers_after_all(ledgers, items.drop_last(), policy);
        withdrawn(ledgers, items.drop_last(), policy, client_id) + (match items.last() {
            Ok(transaction) => if transaction.client_id == client_id {
                withdrawal_of(ledger_of(before, client_id), transaction, policy)
            } else {
                0
            },
            Err(_) => 0,
        })
    }
}

/// The sum of the amounts that a run charged back to a client.
pub open spec fn charged_back<E>(
    ledgers: Map<u16, Ledger>,
    items: Seq<Result<Transaction, E>>,
    policy: WithdrawalPolicy,
    client_id: u16,
) -> int
    decreases items.len(),
{
    if items.len() == 0 {
        0
    } else {
        let before = ledgers_after_all(ledgers, items.drop_last(), policy);
        charged_back(ledgers, items.drop_last(), policy, client_id) + (match items.last() {
            Ok(transaction) => if transaction.client_id == client_id {
                chargeback_of(ledger_of(before, client_id), transaction, policy)
            } else {
                0
            },
            Err(_) => 0,
        })
    }
}

/// One transaction changes what is available to its client by exactly what
/// it deposits, less what it withdraws, less what it adds to the funds
/// held, less what it charges back. Only a chargeback locks an account.
pub proof fn transaction_accounts_exactly(
    ledger: Ledger,
    transaction: Transaction,
    policy: WithdrawalPolicy,
)
    requires
        transaction.validation() is Ok,
    ensures
        ledger.after(transaction, policy).account.available == ledger.account.available
            + deposit_of(ledger, transaction, policy) - withdrawal_of(ledger, transaction, policy)
            - (ledger.after(transaction, policy).account.held - ledger.account.held)
            - chargeback_of(ledger, transaction, policy),
        ledger.account.locked ==> chargeback_of(ledger, transaction, policy) == 0,
        !ledger.after(transaction, policy).account.locked ==> chargeback_of(
            ledger,
            transaction,
            policy,
        ) == 0,
        ledger.account.locked ==> ledger.after(transaction, policy).account.locked,
{
}

/// After any run of input items, what is available to a client is, to the
/// last digit, what it had, plus the deposits that were accepted, less the
/// withdrawals that were accepted, less what has come to be held, less what
/// was charged back. An account that is not locked at the end has had no
/// chargeback.
pub proof fn available_is_exact<E>(
    ledgers: Map<u16, Ledger>,
    items: Seq<Result<Transaction, E>>,
    policy: WithdrawalPolicy,
    client_id: u16,
)
    ensures
        ({
            let before = ledger_of(ledgers, client_id).account;
            let after = ledger_of(ledgers_after_all(ledgers, items, policy), client_id).account;
            &&& after.available == before.available + deposited(ledgers, items, policy, client_id)
                - withdrawn(ledgers, items, policy, client_id) - (after.held - before.held)
                - charged_back(ledgers, items, policy, client_id)
            &&& !after.locked ==> charged_back(ledgers, items, policy, client_id) == 0
            &&& before.locked ==> after.locked
        }),
    decreases items.len(),
{
    if items.len() > 0 {
        available_is_exact(ledgers, items.drop_last(), policy, client_id);
        let before = ledgers_after_all(ledgers, items.drop_last(), policy);
        match items.last() {
            Ok(transaction) => {
                if transaction.client_id == client_id && transaction.validation() is Ok {
                    transaction_accounts_exactly(ledger_of(before, client_id), transaction, policy);
                }
            },
            Err(_) => {},
        }
    }
}

/// From no ledgers at all, and as long as the account has had no
/// chargeback: what is available to a client is the sum of the accepted
/// deposits, less the sum of the accepted withdrawals, less what is held;
/// and what is held is the sum of the amounts under dispute.
pub proof fn available_is_deposits_less_withdrawals_less_held<E>(
    items: Seq<Result<Transaction, E>>,
    policy: WithdrawalPolicy,
    client_id: u16,
)
    requires
        !ledger_of(ledgers_after_all(Map::empty(), items, policy), client_id).account.locked,
    ensures
        ({
            let ledger = ledger_of(ledgers_after_all(Map::empty(), items, policy), client_id);
            &&& ledger.account.available == deposited(Map::empty(), items, policy, client_id)
                - withdrawn(Map::empty(), items, policy, client_id) - ledger.account.held
            &&& ledger.account.held == held_sum(ledger.transactions)
        }),
{
    let empty = Map::<u16, Ledger>::empty();
    available_is_exact(empty, items, policy, client_id);
    run_keeps_ledgers_well_formed(empty, items, policy);
    lemma_sums_of_empty(id_count());
}

} // verus!
