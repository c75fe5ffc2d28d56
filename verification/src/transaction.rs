use crate::decimal::Amount;
use vstd::prelude::*;
use vstd::string::StringExecFns;

verus! {

/// The five kinds of transaction that a ledger accepts.
#[derive(Clone, Copy, Debug, PartialEq, Eq, Structural)]
pub enum TransactionType {
    Deposit,
    Withdraw,
    Dispute,
    Resolve,
    Chargeback,
}

impl TransactionType {
    /// Whether a transaction of this kind brings an amount of its own.
    /// Deposits and withdrawals do; the other three refer to the amount of
    /// an earlier transaction.
    pub open spec fn carries_amount(self) -> bool {
        self is Deposit || self is Withdraw
    }
}

/// What the ledger keeps of a recorded transaction: its amount, and whether
/// it is under dispute.
#[derive(Clone, Copy, Debug, PartialEq, Eq, Structural)]
pub struct TransactionDetails {
    pub amount: Amount,
    pub disputed: bool,
}

impl TransactionDetails {
    /// The record of a transaction that has just been accepted.
    pub fn new(amount: Amount) -> (details: TransactionDetails)
        ensures
            details == (TransactionDetails { amount, disputed: false }),
    {
        TransactionDetails { amount, disputed: false }
    }
}

/// Why a transaction record is malformed.
#[derive(Clone, Copy, Debug, PartialEq, Eq, Structural)]
pub enum TransactionValidationError {
    /// A deposit or withdrawal without an amount.
    AmountMissing,
    /// A deposit or withdrawal of less than zero.
    AmountNegative,
    /// A dispute, resolve or chargeback that brings an amount.
    AmountNotAllowed,
}

impl TransactionValidationError {
    /// The text that describes each variant.
    pub open spec fn message_text(self) -> Seq<char> {
        match self {
            TransactionValidationError::AmountMissing => "Amount is missing"@,
            TransactionValidationError::AmountNegative => "Amount is negative"@,
            TransactionValidationError::AmountNotAllowed => "Amount is not allowed"@,
        }
    }

    /// A description of the error for a reader.
    pub fn message(&self) -> (text: String)
        ensures
            text@ == self.message_text(),
    {
        match self {
            TransactionValidationError::AmountMissing => String::from_str("Amount is missing"),
            TransactionValidationError::AmountNegative => String::from_str("Amount is negative"),
            TransactionValidationError::AmountNotAllowed => String::from_str(
                "Amount is not allowed",
            ),
        }
    }
}

/// One record of the input stream.
#[derive(Clone, Copy, Debug, PartialEq, Eq, Structural)]
pub struct Transaction {
    pub kind: TransactionType,
    pub client_id: u16,
    pub transaction_id: u32,
    pub amount: Option<Amount>,
}

impl Transaction {
    /// What `get_amount_or_error` returns: the amount where there is one
    /// that is not below zero.
    pub open spec fn amount_or_error(self) -> Result<Amount, TransactionValidationError> {
        match self.amount {
            Some(amount) => if amount@ < 0 {
                Err(TransactionValidationError::AmountNegative)
            } else {
                Ok(amount)
            },
            None => Err(TransactionValidationError::AmountMissing),
        }
    }

    /// Whether the record is well formed: a deposit or withdrawal brings an
    /// amount that is not below zero, and the other kinds bring none.
    pub open spec fn validation(self) -> Result<(), TransactionValidationError> {
        if self.kind.carries_amount() {
            match self.amount_or_error() {
                Ok(_) => Ok(()),
                Err(e) => Err(e),
            }
        } else if self.amount is Some {
            Err(TransactionValidationError::AmountNotAllowed)
        } else {
            Ok(())
        }
    }

    /// The amount of a deposit or withdrawal, or the reason why it cannot be
    /// used.
    pub fn get_amount_or_error(&self) -> (result: Result<Amount, TransactionValidationError>)
        ensures
            result == self.amount_or_error(),
    {
        match self.amount {
            Some(amount) => {
                if amount.is_negative() {
                    return Err(TransactionValidationError::AmountNegative);
                }
                Ok(amount)
            },
            None => Err(TransactionValidationError::AmountMissing),
        }
    }

    /// Checks that the record brings an amount exactly where its kind asks
    /// for one.
    pub fn validate(&self) -> (result: Result<(), TransactionValidationError>)
        ensures
            result == self.validation(),
    {
        match self.kind {
            TransactionType::Deposit | TransactionType::Withdraw => match self.get_amount_or_error() {
                Ok(_) => Ok(()),
                Err(e) => Err(e),
            },
            _ => match self.amount {
                Some(_) => Err(TransactionValidationError::AmountNotAllowed),
                None => Ok(()),
            },
        }
    }
}

} // verus!
