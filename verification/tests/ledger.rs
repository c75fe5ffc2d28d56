use payments_engine::decimal::{format_decimal, with_fraction};
use payments_engine::{
    Account, AccountManager, AccountManagerError, Amount, Balance, Engine, EngineError,
    Transaction, TransactionDetails, TransactionType, TransactionValidationError,
    WithdrawalPolicy,
};

fn amount(units: i64) -> Amount {
    Amount { units }
}

fn transaction(
    kind: TransactionType,
    client_id: u16,
    transaction_id: u32,
    amount: Option<Amount>,
) -> Transaction {
    Transaction {
        kind,
        client_id,
        transaction_id,
        amount,
    }
}

fn deposit(client_id: u16, transaction_id: u32, units: i64) -> Transaction {
    transaction(
        TransactionType::Deposit,
        client_id,
        transaction_id,
        Some(amount(units)),
    )
}

fn withdrawal(client_id: u16, transaction_id: u32, units: i64) -> Transaction {
    transaction(
        TransactionType::Withdraw,
        client_id,
        transaction_id,
        Some(amount(units)),
    )
}

fn dispute(client_id: u16, transaction_id: u32) -> Transaction {
    transaction(TransactionType::Dispute, client_id, transaction_id, None)
}

fn resolve(client_id: u16, transaction_id: u32) -> Transaction {
    transaction(TransactionType::Resolve, client_id, transaction_id, None)
}

fn chargeback(client_id: u16, transaction_id: u32) -> Transaction {
    transaction(TransactionType::Chargeback, client_id, transaction_id, None)
}

fn balances(account: &Account) -> (i128, i128, i128, bool) {
    (
        account.available.units,
        account.held.units,
        account.calculate_total().units,
        account.locked,
    )
}

fn ledger_error(error: AccountManagerError) -> Result<(), EngineError> {
    Err(EngineError::AccountManagerError(error))
}

fn validation_error(error: TransactionValidationError) -> Result<(), EngineError> {
    Err(EngineError::TransactionValidationError(error))
}

#[test]
fn new_account_has_no_funds() {
    let account = Account::new(7);
    assert_eq!(account.client_id, 7);
    assert_eq!(balances(&account), (0, 0, 0, false));
}

#[test]
fn total_is_available_plus_held() {
    let account = Account {
        client_id: 1,
        available: Balance { units: 50000 },
        held: Balance { units: 150000 },
        locked: false,
    };
    assert_eq!(account.calculate_total(), Balance { units: 200000 });
}

#[test]
fn total_holds_after_every_transaction() {
    let mut engine = Engine::new();
    let steps = [
        deposit(1, 1, 150000),
        deposit(1, 2, 50000),
        withdrawal(1, 3, 20000),
        dispute(1, 1),
        resolve(1, 1),
        dispute(1, 2),
        chargeback(1, 2),
        deposit(1, 4, 10000),
    ];
    for step in steps {
        let _ = engine.process_transaction(step);
        for account in engine.accounts() {
            assert_eq!(
                account.calculate_total().units,
                account.available.units + account.held.units
            );
        }
    }
}

#[test]
fn new_transaction_details_are_not_disputed() {
    let details = TransactionDetails::new(amount(12345));
    assert_eq!(details.amount, amount(12345));
    assert!(!details.disputed);
}

#[test]
fn balance_credit_adds() {
    assert_eq!(
        Balance { units: 10000 }.credit(amount(20000)),
        Balance { units: 30000 }
    );
    assert_eq!(Balance::zero().credit(amount(11000)), Balance { units: 11000 });
    assert_eq!(Balance { units: -5 }.credit(amount(5)), Balance { units: 0 });
}

#[test]
fn balance_debit_subtracts() {
    assert_eq!(
        Balance { units: 30000 }.debit(amount(20000)),
        Balance { units: 10000 }
    );
    assert_eq!(Balance::zero().debit(amount(5000)), Balance { units: -5000 });
    assert_eq!(Balance { units: 7 }.debit(amount(7)), Balance { units: 0 });
}

#[test]
fn balance_plus_adds_large_values() {
    let large = Balance {
        units: 39614081257132168796771975168,
    };
    assert_eq!(
        large.plus(Balance { units: i64::MAX as i128 }),
        Balance {
            units: 39614081257132168796771975168 + i64::MAX as i128
        }
    );
    assert_eq!(
        Balance { units: -3 }.plus(Balance { units: 10 }),
        Balance { units: 7 }
    );
}

#[test]
fn balance_covers_compares() {
    assert!(Balance { units: 30000 }.covers(amount(30000)));
    assert!(Balance { units: 30000 }.covers(amount(29999)));
    assert!(!Balance { units: 30000 }.covers(amount(30001)));
    assert!(!Balance { units: -1 }.covers(amount(0)));
    assert!(Balance { units: 0 }.covers(amount(0)));
}

#[test]
fn amount_sign() {
    assert!(amount(-1).is_negative());
    assert!(!amount(0).is_negative());
    assert!(!amount(1).is_negative());
    assert!(amount(i64::MIN).is_negative());
}

#[test]
fn amount_from_decimal_parts_scales_up() {
    assert_eq!(Amount::from_decimal_parts(11, 1), Some(amount(11000)));
    assert_eq!(Amount::from_decimal_parts(1, 0), Some(amount(10000)));
    assert_eq!(Amount::from_decimal_parts(12345, 4), Some(amount(12345)));
    assert_eq!(Amount::from_decimal_parts(-5, 1), Some(amount(-5000)));
    assert_eq!(Amount::from_decimal_parts(0, 0), Some(amount(0)));
}

#[test]
fn amount_from_decimal_parts_strips_zeros() {
    assert_eq!(Amount::from_decimal_parts(123450, 5), Some(amount(12345)));
    assert_eq!(Amount::from_decimal_parts(-1000000, 6), Some(amount(-10000)));
    assert_eq!(Amount::from_decimal_parts(0, 28), Some(amount(0)));
}

#[test]
fn amount_from_decimal_parts_rejects_a_fifth_digit() {
    assert_eq!(Amount::from_decimal_parts(123451, 5), None);
    assert_eq!(Amount::from_decimal_parts(1, 5), None);
    assert_eq!(Amount::from_decimal_parts(-10, 6), None);
}

#[test]
fn amount_from_decimal_parts_rejects_what_does_not_fit() {
    assert_eq!(
        Amount::from_decimal_parts(i64::MAX as i128, 4),
        Some(amount(i64::MAX))
    );
    assert_eq!(
        Amount::from_decimal_parts(i64::MIN as i128, 4),
        Some(amount(i64::MIN))
    );
    assert_eq!(Amount::from_decimal_parts(i64::MAX as i128 + 1, 4), None);
    assert_eq!(Amount::from_decimal_parts(i64::MIN as i128 - 1, 4), None);
    assert_eq!(Amount::from_decimal_parts(i64::MAX as i128, 3), None);
    assert_eq!(Amount::from_decimal_parts(1, 29), None);
    assert_eq!(
        Amount::from_decimal_parts(79228162514264337593543950336, 20),
        None
    );
    assert_eq!(
        Amount::from_decimal_parts(-79228162514264337593543950336, 20),
        None
    );
}

#[test]
fn format_decimal_strips_zeros() {
    assert_eq!(format_decimal(Balance { units: 66000 }), "6.6");
    assert_eq!(format_decimal(Balance { units: 12345 }), "1.2345");
    assert_eq!(format_decimal(Balance { units: 12300 }), "1.23");
    assert_eq!(format_decimal(Balance { units: -5000 }), "-0.5");
    assert_eq!(format_decimal(Balance { units: 1 }), "0.0001");
}

#[test]
fn format_decimal_keeps_one_digit_of_fraction() {
    assert_eq!(format_decimal(Balance { units: 0 }), "0.0");
    assert_eq!(format_decimal(Balance { units: 200000 }), "20.0");
    assert_eq!(format_decimal(Balance { units: 60000 }), "6.0");
    assert_eq!(format_decimal(Balance { units: -10000 }), "-1.0");
    assert_eq!(
        format_decimal(Balance {
            units: 79228162514264337593543950335
        }),
        "7922816251426433759354395.0335"
    );
}

#[test]
fn with_fraction_adds_a_digit_where_there_is_none() {
    assert_eq!(with_fraction(String::from("6")), "6.0");
    assert_eq!(with_fraction(String::from("6.6")), "6.6");
    assert_eq!(with_fraction(String::from("-12")), "-12.0");
    assert_eq!(with_fraction(String::from("")), ".0");
    assert_eq!(with_fraction(String::from("6.")), "6.");
}

#[test]
fn get_amount_or_error_gives_each_outcome() {
    assert_eq!(deposit(1, 1, 5).get_amount_or_error(), Ok(amount(5)));
    assert_eq!(deposit(1, 1, 0).get_amount_or_error(), Ok(amount(0)));
    assert_eq!(
        deposit(1, 1, -1).get_amount_or_error(),
        Err(TransactionValidationError::AmountNegative)
    );
    assert_eq!(
        dispute(1, 1).get_amount_or_error(),
        Err(TransactionValidationError::AmountMissing)
    );
}

#[test]
fn validate_asks_for_an_amount_where_the_kind_has_one() {
    assert_eq!(deposit(1, 1, 5).validate(), Ok(()));
    assert_eq!(withdrawal(1, 1, 5).validate(), Ok(()));
    assert_eq!(dispute(1, 1).validate(), Ok(()));
    assert_eq!(resolve(1, 1).validate(), Ok(()));
    assert_eq!(chargeback(1, 1).validate(), Ok(()));
    assert_eq!(
        transaction(TransactionType::Deposit, 1, 1, None).validate(),
        Err(TransactionValidationError::AmountMissing)
    );
    assert_eq!(
        transaction(TransactionType::Withdraw, 1, 1, None).validate(),
        Err(TransactionValidationError::AmountMissing)
    );
    assert_eq!(
        withdrawal(1, 1, -7).validate(),
        Err(TransactionValidationError::AmountNegative)
    );
    for kind in [
        TransactionType::Dispute,
        TransactionType::Resolve,
        TransactionType::Chargeback,
    ] {
        assert_eq!(
            transaction(kind, 1, 1, Some(amount(1))).validate(),
            Err(TransactionValidationError::AmountNotAllowed)
        );
    }
}

#[test]
fn error_messages() {
    assert_eq!(
        TransactionValidationError::AmountMissing.message(),
        "Amount is missing"
    );
    assert_eq!(
        TransactionValidationError::AmountNegative.message(),
        "Amount is negative"
    );
    assert_eq!(
        TransactionValidationError::AmountNotAllowed.message(),
        "Amount is not allowed"
    );
    assert_eq!(AccountManagerError::AccountLocked.message(), "Account is locked");
    assert_eq!(
        AccountManagerError::TransactionExist.message(),
        "Transaction already exists"
    );
    assert_eq!(
        AccountManagerError::TransactionNotExist.message(),
        "Transaction does not exist"
    );
    assert_eq!(
        AccountManagerError::TransactionDisputed.message(),
        "Transaction already disputed"
    );
    assert_eq!(
        AccountManagerError::TransactionNotDisputed.message(),
        "Transaction not disputed"
    );
    assert_eq!(
        AccountManagerError::InsufficientFunds.message(),
        "Insufficient funds"
    );
    assert_eq!(
        EngineError::TransactionValidationError(TransactionValidationError::AmountMissing)
            .message(),
        "Transaction validation error: Amount is missing"
    );
    assert_eq!(
        EngineError::AccountManagerError(AccountManagerError::AccountLocked).message(),
        "AccountManager error: Account is locked"
    );
}

#[test]
fn engine_error_from_inner_errors() {
    assert_eq!(
        EngineError::from(TransactionValidationError::AmountNegative),
        EngineError::TransactionValidationError(TransactionValidationError::AmountNegative)
    );
    assert_eq!(
        EngineError::from(AccountManagerError::InsufficientFunds),
        EngineError::AccountManagerError(AccountManagerError::InsufficientFunds)
    );
}

#[test]
fn manager_deposit_records_the_transaction() {
    let mut manager = AccountManager::new(3);
    assert_eq!(manager.deposit(10, amount(11000)), Ok(()));
    assert_eq!(balances(&manager.account), (11000, 0, 11000, false));
    assert_eq!(
        manager.transactions.get(&10),
        Some(&TransactionDetails {
            amount: amount(11000),
            disputed: false
        })
    );
    assert_eq!(manager.transactions.len(), 1);
}

#[test]
fn manager_deposit_rejects_a_used_id() {
    let mut manager = AccountManager::new(3);
    assert_eq!(manager.deposit(10, amount(11000)), Ok(()));
    assert_eq!(
        manager.deposit(10, amount(5)),
        Err(AccountManagerError::TransactionExist)
    );
    assert_eq!(balances(&manager.account), (11000, 0, 11000, false));
    assert_eq!(manager.transactions.get(&10).unwrap().amount, amount(11000));
}

#[test]
fn manager_withdraw_takes_what_is_available() {
    let mut manager = AccountManager::new(3);
    manager.deposit(1, amount(30000)).unwrap();
    assert_eq!(manager.withdraw(amount(20000)), Ok(()));
    assert_eq!(balances(&manager.account), (10000, 0, 10000, false));
    assert_eq!(manager.withdraw(amount(10000)), Ok(()));
    assert_eq!(balances(&manager.account), (0, 0, 0, false));
    assert_eq!(manager.transactions.len(), 1);
}

#[test]
fn withdrawal_beyond_available_changes_nothing() {
    let mut manager = AccountManager::new(3);
    manager.deposit(1, amount(30000)).unwrap();
    manager.deposit(2, amount(5000)).unwrap();
    manager.dispute(2).unwrap();
    let account = manager.account;
    let transactions = manager.transactions.clone();
    assert_eq!(
        manager.withdraw(amount(30001)),
        Err(AccountManagerError::InsufficientFunds)
    );
    assert_eq!(manager.account, account);
    assert_eq!(manager.transactions, transactions);
}

#[test]
fn dispute_moves_the_amount_to_held() {
    let mut manager = AccountManager::new(3);
    manager.deposit(1, amount(150000)).unwrap();
    manager.deposit(2, amount(50000)).unwrap();
    assert_eq!(manager.dispute(1), Ok(()));
    assert_eq!(balances(&manager.account), (50000, 150000, 200000, false));
    assert!(manager.transactions.get(&1).unwrap().disputed);
    assert!(!manager.transactions.get(&2).unwrap().disputed);
}

#[test]
fn dispute_can_take_available_below_zero() {
    let mut manager = AccountManager::new(3);
    manager.deposit(1, amount(100000)).unwrap();
    manager.withdraw(amount(100000)).unwrap();
    assert_eq!(manager.dispute(1), Ok(()));
    assert_eq!(balances(&manager.account), (-100000, 100000, 0, false));
    assert_eq!(manager.chargeback(1), Ok(()));
    assert_eq!(balances(&manager.account), (-100000, 0, -100000, true));
}

#[test]
fn dispute_of_disputed_changes_nothing() {
    let mut manager = AccountManager::new(3);
    manager.deposit(1, amount(150000)).unwrap();
    manager.dispute(1).unwrap();
    let account = manager.account;
    let transactions = manager.transactions.clone();
    assert_eq!(
        manager.dispute(1),
        Err(AccountManagerError::TransactionDisputed)
    );
    assert_eq!(manager.account, account);
    assert_eq!(manager.transactions, transactions);
}

#[test]
fn dispute_of_unknown_changes_nothing() {
    let mut manager = AccountManager::new(3);
    manager.deposit(1, amount(150000)).unwrap();
    let account = manager.account;
    let transactions = manager.transactions.clone();
    assert_eq!(
        manager.dispute(2),
        Err(AccountManagerError::TransactionNotExist)
    );
    assert_eq!(manager.account, account);
    assert_eq!(manager.transactions, transactions);
}

#[test]
fn resolve_moves_the_amount_back() {
    let mut manager = AccountManager::new(3);
    manager.deposit(1, amount(10000)).unwrap();
    manager.deposit(2, amount(20000)).unwrap();
    manager.dispute(2).unwrap();
    assert_eq!(balances(&manager.account), (10000, 20000, 30000, false));
    assert_eq!(manager.resolve(2), Ok(()));
    assert_eq!(balances(&manager.account), (30000, 0, 30000, false));
    assert!(!manager.transactions.get(&2).unwrap().disputed);
    // A resolved transaction can be disputed again.
    assert_eq!(manager.dispute(2), Ok(()));
    assert_eq!(balances(&manager.account), (10000, 20000, 30000, false));
}

#[test]
fn resolve_and_chargeback_without_dispute_change_nothing() {
    let mut manager = AccountManager::new(3);
    manager.deposit(1, amount(10000)).unwrap();
    manager.deposit(2, amount(20000)).unwrap();
    manager.dispute(1).unwrap();
    let account = manager.account;
    let transactions = manager.transactions.clone();
    assert_eq!(
        manager.resolve(2),
        Err(AccountManagerError::TransactionNotDisputed)
    );
    assert_eq!(
        manager.chargeback(2),
        Err(AccountManagerError::TransactionNotDisputed)
    );
    assert_eq!(
        manager.resolve(9),
        Err(AccountManagerError::TransactionNotExist)
    );
    assert_eq!(
        manager.chargeback(9),
        Err(AccountManagerError::TransactionNotExist)
    );
    assert_eq!(manager.account, account);
    assert_eq!(manager.transactions, transactions);
}

#[test]
fn chargeback_locks_the_account() {
    let mut manager = AccountManager::new(3);
    manager.deposit(1, amount(10000)).unwrap();
    manager.deposit(2, amount(20000)).unwrap();
    manager.dispute(2).unwrap();
    assert_eq!(manager.chargeback(2), Ok(()));
    assert_eq!(balances(&manager.account), (10000, 0, 10000, true));
    assert!(!manager.transactions.get(&2).unwrap().disputed);
}

#[test]
fn locked_account_rejects_everything() {
    let mut manager = AccountManager::new(3);
    manager.deposit(1, amount(10000)).unwrap();
    manager.deposit(2, amount(20000)).unwrap();
    manager.deposit(3, amount(40000)).unwrap();
    manager.dispute(2).unwrap();
    manager.dispute(3).unwrap();
    manager.chargeback(2).unwrap();
    let account = manager.account;
    let transactions = manager.transactions.clone();
    assert_eq!(balances(&account), (10000, 40000, 50000, true));
    let locked = Err(AccountManagerError::AccountLocked);
    assert_eq!(manager.deposit(4, amount(1)), locked);
    assert_eq!(manager.deposit(1, amount(1)), locked);
    assert_eq!(manager.withdraw(amount(1)), locked);
    assert_eq!(manager.withdraw(amount(90000)), locked);
    assert_eq!(manager.dispute(1), locked);
    assert_eq!(manager.dispute(3), locked);
    assert_eq!(manager.dispute(9), locked);
    assert_eq!(manager.resolve(3), locked);
    assert_eq!(manager.resolve(1), locked);
    assert_eq!(manager.chargeback(3), locked);
    assert_eq!(manager.chargeback(9), locked);
    assert_eq!(manager.account, account);
    assert_eq!(manager.transactions, transactions);
}

#[test]
fn engine_starts_without_accounts() {
    assert_eq!(Engine::new().accounts(), vec![]);
}

#[test]
fn engine_gives_each_outcome() {
    let mut engine = Engine::new();
    assert_eq!(engine.process_transaction(deposit(1, 1, 10000)), Ok(()));
    assert_eq!(
        engine.process_transaction(deposit(1, 1, 10000)),
        ledger_error(AccountManagerError::TransactionExist)
    );
    assert_eq!(
        engine.process_transaction(withdrawal(1, 2, 10001)),
        ledger_error(AccountManagerError::InsufficientFunds)
    );
    assert_eq!(engine.process_transaction(withdrawal(1, 2, 4000)), Ok(()));
    assert_eq!(
        engine.process_transaction(dispute(1, 9)),
        ledger_error(AccountManagerError::TransactionNotExist)
    );
    assert_eq!(
        engine.process_transaction(resolve(1, 1)),
        ledger_error(AccountManagerError::TransactionNotDisputed)
    );
    assert_eq!(
        engine.process_transaction(chargeback(1, 1)),
        ledger_error(AccountManagerError::TransactionNotDisputed)
    );
    assert_eq!(engine.process_transaction(dispute(1, 1)), Ok(()));
    assert_eq!(
        engine.process_transaction(dispute(1, 1)),
        ledger_error(AccountManagerError::TransactionDisputed)
    );
    assert_eq!(
        engine.process_transaction(transaction(TransactionType::Deposit, 1, 5, None)),
        validation_error(TransactionValidationError::AmountMissing)
    );
    assert_eq!(
        engine.process_transaction(deposit(1, 5, -1)),
        validation_error(TransactionValidationError::AmountNegative)
    );
    assert_eq!(
        engine.process_transaction(transaction(
            TransactionType::Chargeback,
            1,
            1,
            Some(amount(1))
        )),
        validation_error(TransactionValidationError::AmountNotAllowed)
    );
    assert_eq!(engine.process_transaction(chargeback(1, 1)), Ok(()));
    assert_eq!(
        engine.process_transaction(withdrawal(1, 6, 1)),
        ledger_error(AccountManagerError::AccountLocked)
    );
    let accounts = engine.accounts();
    assert_eq!(accounts.len(), 1);
    assert_eq!(balances(&accounts[0]), (-4000, 0, -4000, true));
}

#[test]
fn malformed_transaction_opens_no_account() {
    let mut engine = Engine::new();
    assert_eq!(
        engine.process_transaction(deposit(4, 1, -10000)),
        validation_error(TransactionValidationError::AmountNegative)
    );
    assert_eq!(
        engine.process_transaction(transaction(TransactionType::Withdraw, 5, 2, None)),
        validation_error(TransactionValidationError::AmountMissing)
    );
    assert_eq!(
        engine.process_transaction(transaction(
            TransactionType::Dispute,
            6,
            3,
            Some(amount(1))
        )),
        validation_error(TransactionValidationError::AmountNotAllowed)
    );
    assert_eq!(engine.accounts(), vec![]);
}

#[test]
fn rejected_transaction_opens_the_account() {
    let mut engine = Engine::new();
    assert_eq!(
        engine.process_transaction(dispute(9, 1)),
        ledger_error(AccountManagerError::TransactionNotExist)
    );
    assert_eq!(
        engine.process_transaction(withdrawal(8, 2, 1)),
        ledger_error(AccountManagerError::InsufficientFunds)
    );
    assert_eq!(engine.accounts(), vec![Account::new(8), Account::new(9)]);
}

#[test]
fn accounts_come_in_the_order_of_their_clients() {
    let mut engine = Engine::new();
    for client_id in [500u16, 3, 65535, 0, 42, 7, 1000, 1] {
        assert_eq!(
            engine.process_transaction(deposit(client_id, 1, client_id as i64 + 1)),
            Ok(())
        );
    }
    let accounts = engine.accounts();
    let clients: Vec<u16> = accounts.iter().map(|account| account.client_id).collect();
    assert_eq!(clients, vec![0, 1, 3, 7, 42, 500, 1000, 65535]);
    for account in accounts {
        assert_eq!(
            balances(&account),
            (
                account.client_id as i128 + 1,
                0,
                account.client_id as i128 + 1,
                false
            )
        );
    }
}

#[test]
fn clients_do_not_share_transaction_ids() {
    let mut engine = Engine::new();
    assert_eq!(engine.process_transaction(deposit(1, 1, 10000)), Ok(()));
    assert_eq!(engine.process_transaction(deposit(2, 1, 20000)), Ok(()));
    assert_eq!(
        engine.process_transaction(dispute(2, 2)),
        ledger_error(AccountManagerError::TransactionNotExist)
    );
    assert_eq!(engine.process_transaction(dispute(2, 1)), Ok(()));
    let accounts = engine.accounts();
    assert_eq!(balances(&accounts[0]), (10000, 0, 10000, false));
    assert_eq!(balances(&accounts[1]), (0, 20000, 20000, false));
}

#[test]
fn process_transactions_reports_what_had_no_effect() {
    let mut engine = Engine::new();
    let items: Vec<Result<Transaction, String>> = vec![
        Ok(deposit(1, 1, 10000)),
        Err(String::from("unreadable row")),
        Ok(deposit(1, 1, 10000)),
        Ok(withdrawal(1, 2, 50000)),
        Ok(deposit(2, 3, -1)),
        Ok(deposit(1, 4, 20000)),
        Ok(dispute(1, 4)),
        Ok(chargeback(1, 4)),
        Ok(deposit(1, 5, 1)),
    ];
    let rejected = engine.process_transactions(items);
    assert_eq!(
        rejected,
        vec![
            (
                1,
                EngineError::AccountManagerError(AccountManagerError::TransactionExist)
            ),
            (
                2,
                EngineError::AccountManagerError(AccountManagerError::InsufficientFunds)
            ),
            (
                3,
                EngineError::TransactionValidationError(
                    TransactionValidationError::AmountNegative
                )
            ),
            (
                5,
                EngineError::AccountManagerError(AccountManagerError::AccountLocked)
            ),
        ]
    );
    let accounts = engine.accounts();
    assert_eq!(accounts.len(), 1);
    assert_eq!(balances(&accounts[0]), (10000, 0, 10000, true));
}

#[test]
fn process_transactions_of_nothing_changes_nothing() {
    let mut engine = Engine::new();
    engine.process_transaction(deposit(1, 1, 10000)).unwrap();
    let items: Vec<Result<Transaction, String>> = vec![];
    assert_eq!(engine.process_transactions(items), vec![]);
    let accounts = engine.accounts();
    assert_eq!(accounts.len(), 1);
    assert_eq!(balances(&accounts[0]), (10000, 0, 10000, false));
}

#[test]
fn available_is_deposits_less_withdrawals_less_held() {
    let mut engine = Engine::new();
    let items: Vec<Result<Transaction, String>> = vec![
        Ok(deposit(1, 1, 11000)),
        Ok(deposit(1, 2, 22000)),
        Ok(deposit(1, 3, 33000)),
        Ok(withdrawal(1, 4, 6000)),
        Ok(withdrawal(1, 5, 990000)),
        Ok(deposit(1, 3, 33000)),
        Ok(dispute(1, 2)),
        Ok(withdrawal(1, 6, 1500)),
    ];
    engine.process_transactions(items);
    let accounts = engine.accounts();
    let deposits = 11000 + 22000 + 33000;
    let withdrawals = 6000 + 1500;
    let held = 22000;
    assert_eq!(accounts[0].held.units, held);
    assert_eq!(accounts[0].available.units, deposits - withdrawals - held);
}

#[test]
fn once_locked_nothing_changes() {
    let mut engine = Engine::new();
    let items: Vec<Result<Transaction, String>> = vec![
        Ok(deposit(1, 1, 10000)),
        Ok(deposit(1, 2, 20000)),
        Ok(deposit(1, 3, 5000)),
        Ok(dispute(1, 3)),
        Ok(dispute(1, 2)),
        Ok(chargeback(1, 2)),
    ];
    engine.process_transactions(items);
    let before = engine.accounts();
    assert_eq!(balances(&before[0]), (10000, 5000, 15000, true));
    let more: Vec<Result<Transaction, String>> = vec![
        Ok(deposit(1, 7, 10000)),
        Ok(withdrawal(1, 8, 1)),
        Ok(dispute(1, 1)),
        Ok(resolve(1, 3)),
        Ok(chargeback(1, 3)),
        Ok(deposit(2, 9, 10000)),
    ];
    let rejected = engine.process_transactions(more);
    assert_eq!(rejected.len(), 5);
    let after = engine.accounts();
    assert_eq!(after[0], before[0]);
    assert_eq!(balances(&after[1]), (10000, 0, 10000, false));
}

#[test]
fn engine_records_withdrawals_unless_told_otherwise() {
    assert_eq!(Engine::new().withdrawal_policy(), WithdrawalPolicy::Recorded);
    assert_eq!(
        Engine::with_policy(WithdrawalPolicy::Recorded).withdrawal_policy(),
        WithdrawalPolicy::Recorded
    );
    assert_eq!(
        Engine::with_policy(WithdrawalPolicy::NotRecorded).withdrawal_policy(),
        WithdrawalPolicy::NotRecorded
    );
    assert_eq!(
        Engine::with_policy(WithdrawalPolicy::NotRecorded).accounts(),
        vec![]
    );
}

#[test]
fn recorded_withdrawal_can_be_disputed() {
    let mut engine = Engine::new();
    assert_eq!(engine.process_transaction(deposit(1, 1, 100000)), Ok(()));
    assert_eq!(engine.process_transaction(withdrawal(1, 2, 40000)), Ok(()));
    assert_eq!(balances(&engine.accounts()[0]), (60000, 0, 60000, false));
    assert_eq!(engine.process_transaction(dispute(1, 2)), Ok(()));
    assert_eq!(balances(&engine.accounts()[0]), (20000, 40000, 60000, false));
    assert_eq!(engine.process_transaction(resolve(1, 2)), Ok(()));
    assert_eq!(balances(&engine.accounts()[0]), (60000, 0, 60000, false));
    assert_eq!(engine.process_transaction(dispute(1, 2)), Ok(()));
    assert_eq!(engine.process_transaction(chargeback(1, 2)), Ok(()));
    assert_eq!(balances(&engine.accounts()[0]), (20000, 0, 20000, true));
}

#[test]
fn recorded_withdrawal_takes_its_id() {
    let mut engine = Engine::new();
    assert_eq!(engine.process_transaction(deposit(1, 1, 100000)), Ok(()));
    assert_eq!(
        engine.process_transaction(withdrawal(1, 1, 1)),
        ledger_error(AccountManagerError::TransactionExist)
    );
    assert_eq!(
        engine.process_transaction(withdrawal(1, 1, 100001)),
        ledger_error(AccountManagerError::TransactionExist)
    );
    assert_eq!(
        engine.process_transaction(withdrawal(1, 2, 100001)),
        ledger_error(AccountManagerError::InsufficientFunds)
    );
    // The rejected withdrawal left its id free.
    assert_eq!(engine.process_transaction(withdrawal(1, 2, 40000)), Ok(()));
    assert_eq!(
        engine.process_transaction(deposit(1, 2, 5)),
        ledger_error(AccountManagerError::TransactionExist)
    );
    assert_eq!(
        engine.process_transaction(withdrawal(1, 2, 5)),
        ledger_error(AccountManagerError::TransactionExist)
    );
    assert_eq!(balances(&engine.accounts()[0]), (60000, 0, 60000, false));
}

#[test]
fn unrecorded_withdrawal_cannot_be_disputed() {
    let mut engine = Engine::with_policy(WithdrawalPolicy::NotRecorded);
    assert_eq!(engine.process_transaction(deposit(1, 1, 100000)), Ok(()));
    assert_eq!(engine.process_transaction(withdrawal(1, 2, 40000)), Ok(()));
    assert_eq!(
        engine.process_transaction(dispute(1, 2)),
        ledger_error(AccountManagerError::TransactionNotExist)
    );
    // The id of a withdrawal is not looked at.
    assert_eq!(engine.process_transaction(withdrawal(1, 1, 10000)), Ok(()));
    assert_eq!(engine.process_transaction(deposit(1, 2, 5000)), Ok(()));
    assert_eq!(
        engine.process_transaction(withdrawal(1, 3, 55001)),
        ledger_error(AccountManagerError::InsufficientFunds)
    );
    assert_eq!(balances(&engine.accounts()[0]), (55000, 0, 55000, false));
    // The dispute of id 1 is that of the deposit.
    assert_eq!(engine.process_transaction(dispute(1, 1)), Ok(()));
    assert_eq!(balances(&engine.accounts()[0]), (-45000, 100000, 55000, false));
}

#[test]
fn unrecorded_policy_holds_through_a_run() {
    let mut engine = Engine::with_policy(WithdrawalPolicy::NotRecorded);
    let items: Vec<Result<Transaction, String>> = vec![
        Ok(deposit(1, 1, 100000)),
        Ok(withdrawal(1, 2, 40000)),
        Ok(dispute(1, 2)),
    ];
    assert_eq!(
        engine.process_transactions(items),
        vec![(
            2,
            EngineError::AccountManagerError(AccountManagerError::TransactionNotExist)
        )]
    );
    assert_eq!(engine.withdrawal_policy(), WithdrawalPolicy::NotRecorded);
    assert_eq!(balances(&engine.accounts()[0]), (60000, 0, 60000, false));
}

#[test]
fn manager_withdraw_recorded_records_the_transaction() {
    let mut manager = AccountManager::new(3);
    manager.deposit(1, amount(30000)).unwrap();
    assert_eq!(manager.withdraw_recorded(2, amount(20000)), Ok(()));
    assert_eq!(balances(&manager.account), (10000, 0, 10000, false));
    assert_eq!(
        manager.transactions.get(&2),
        Some(&TransactionDetails {
            amount: amount(20000),
            disputed: false
        })
    );
    assert_eq!(manager.transactions.len(), 2);
}

#[test]
fn manager_withdraw_recorded_gives_each_error() {
    let mut manager = AccountManager::new(3);
    manager.deposit(1, amount(30000)).unwrap();
    let account = manager.account;
    let transactions = manager.transactions.clone();
    assert_eq!(
        manager.withdraw_recorded(1, amount(1)),
        Err(AccountManagerError::TransactionExist)
    );
    assert_eq!(
        manager.withdraw_recorded(2, amount(30001)),
        Err(AccountManagerError::InsufficientFunds)
    );
    assert_eq!(manager.account, account);
    assert_eq!(manager.transactions, transactions);
    manager.dispute(1).unwrap();
    manager.chargeback(1).unwrap();
    assert_eq!(
        manager.withdraw_recorded(2, amount(0)),
        Err(AccountManagerError::AccountLocked)
    );
    assert_eq!(
        manager.withdraw_recorded(1, amount(0)),
        Err(AccountManagerError::AccountLocked)
    );
}
