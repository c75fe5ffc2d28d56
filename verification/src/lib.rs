//! A ledger of client accounts. It takes deposits, withdrawals, disputes,
//! resolves and chargebacks in the order in which they arrive, and keeps for
//! each client what is available, what is held, and whether the account is
//! locked. Amounts are decimals of four fractional digits, and every sum is
//! exact.
//!
//! `Engine` is the entry point. `AccountManager` holds the rules of one
//! client's ledger, `laws` states what holds of every run of transactions,
//! and `decimal` is where the arithmetic of `rust_decimal` is called.

pub mod account;
pub mod account_manager;
pub mod decimal;
pub mod engine;
pub mod laws;
pub mod transaction;

pub use account::{Account, AccountState};
pub use account_manager::{AccountManager, AccountManagerError, Ledger, WithdrawalPolicy};
pub use decimal::{Amount, Balance};
pub use engine::{Engine, EngineError};
pub use transaction::{
    Transaction, TransactionDetails, TransactionType, TransactionValidationError,
};
