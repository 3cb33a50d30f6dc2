use vstd::prelude::*;
use crate::table::TableKey;
use crate::error::TransactionError;

verus! {

/// A transfer of `amount` from the account with public key `sender` to the
/// account with public key `receiver`, signed by the sender.
#[derive(Debug, Clone, Copy)]
pub struct Transaction {
    pub sender: [u8; 32],
    pub receiver: [u8; 32],
    pub amount: u64,
    pub timestamp: i64,
    pub signature: [u8; 64],
    pub sequence: u64,
}

/// One record of the write-ahead log.
#[derive(Debug, Clone)]
pub enum WalEntry {
    CreateProfile { name: String, key: [u8; 32], balance: u64, last_sequence: u64 },
    Transfer(Transaction),
}

impl Transaction {
    /// Builds a transaction, refusing a zero amount and a transfer from an
    /// account to itself.
    pub fn new(
        sender: [u8; 32],
        receiver: [u8; 32],
        amount: u64,
        timestamp: i64,
        signature: [u8; 64],
        sequence: u64,
    ) -> (r: Result<Transaction, TransactionError>)
        ensures
            r == (if amount == 0 {
                Err(TransactionError::ZeroAmount)
            } else if sender@ == receiver@ {
                Err(TransactionError::SameSenderReceiver)
            } else {
                Ok(Transaction { sender, receiver, amount, timestamp, signature, sequence })
            }),
    {
        if amount == 0 {
            return Err(TransactionError::ZeroAmount);
        }
        if sender.same_key(&receiver) {
            return Err(TransactionError::SameSenderReceiver);
        }
        Ok(Transaction { sender, receiver, amount, timestamp, signature, sequence })
    }
}

} // verus!
