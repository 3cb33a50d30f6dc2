use vstd::prelude::*;

verus! {

/// Why a request against the ledger was refused.
#[derive(Debug, Clone, Copy, PartialEq, Eq, Structural)]
pub enum TransactionError {
    ZeroAmount,
    SameSenderReceiver,
    AccountNotFound,
    AccountAlreadyExists,
    NotEnoughBalance,
    IoError,
    WalError,
    InvalidSignature,
    SequenceTooFar,
    QueueFull,
    DuplicateSequence,
    OldSequence,
}

impl TransactionError {
    /// The text shown to a user for this error.
    pub open spec fn spec_message(self) -> Seq<char> {
        match self {
            TransactionError::ZeroAmount => "\nTransaction amount must be greater than zero."@,
            TransactionError::SameSenderReceiver => "\nSender and receiver cannot be the same account."@,
            TransactionError::AccountNotFound => "\nThe specified account was not found in the ledger."@,
            TransactionError::AccountAlreadyExists => "\nAn account with this name already exists."@,
            TransactionError::NotEnoughBalance => "\nInsufficient funds to complete this transaction."@,
            TransactionError::IoError => "\nA disk I/O error occurred while accessing the ledger log."@,
            TransactionError::WalError => "\nA WAL error occurred while writing to the ledger log."@,
            TransactionError::InvalidSignature => "\nCryptographic signature verification failed."@,
            TransactionError::SequenceTooFar => "\nTransaction Sequence is too ahead in future."@,
            TransactionError::QueueFull => "\nYour queue of future transactions is full."@,
            TransactionError::DuplicateSequence => "\nThe sequence is a Duplicate of a pending sequence"@,
            TransactionError::OldSequence => "\nThe sequence is a Old"@,
        }
    }

    /// The text shown to a user for this error.
    pub fn message(&self) -> (m: String)
        ensures
            m@ == self.spec_message(),
    {
        match self {
            TransactionError::ZeroAmount => "\nTransaction amount must be greater than zero.".to_owned(),
            TransactionError::SameSenderReceiver => "\nSender and receiver cannot be the same account.".to_owned(),
            TransactionError::AccountNotFound => "\nThe specified account was not found in the ledger.".to_owned(),
            TransactionError::AccountAlreadyExists => "\nAn account with this name already exists.".to_owned(),
            TransactionError::NotEnoughBalance => "\nInsufficient funds to complete this transaction.".to_owned(),
            TransactionError::IoError => "\nA disk I/O error occurred while accessing the ledger log.".to_owned(),
            TransactionError::WalError => "\nA WAL error occurred while writing to the ledger log.".to_owned(),
            TransactionError::InvalidSignature => "\nCryptographic signature verification failed.".to_owned(),
            TransactionError::SequenceTooFar => "\nTransaction Sequence is too ahead in future.".to_owned(),
            TransactionError::QueueFull => "\nYour queue of future transactions is full.".to_owned(),
            TransactionError::DuplicateSequence => "\nThe sequence is a Duplicate of a pending sequence".to_owned(),
            TransactionError::OldSequence => "\nThe sequence is a Old".to_owned(),
        }
    }
}

} // verus!
