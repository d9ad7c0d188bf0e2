//! The block data that the decoding reads: transactions in block order, each
//! with the logs of its receipt and its calls.

use vstd::prelude::*;

verus! {

/// The time of a block: seconds since the Unix epoch, and nanoseconds within
/// the second.
#[derive(Clone, Copy, Debug, PartialEq, Eq, Structural)]
pub struct Timestamp {
    pub seconds: i64,
    pub nanos: i32,
}

/// How the execution of a transaction ended.
#[derive(Clone, Copy, Debug, PartialEq, Eq, Structural)]
pub enum TransactionStatus {
    Unknown,
    Succeeded,
    Failed,
    Reverted,
}

/// A log of a transaction's receipt.
#[derive(Debug, PartialEq, Eq)]
pub struct Log {
    /// The contract that emitted the log.
    pub address: Vec<u8>,
    /// The topics; the first one is the signature of the event.
    pub topics: Vec<Vec<u8>>,
    /// The payload that is not indexed.
    pub data: Vec<u8>,
    /// The position of the log among the logs of the block.
    pub block_index: u32,
    /// The position of the log in the order of everything that happens in
    /// the block.
    pub ordinal: u64,
}

/// A call made while a transaction ran.
#[derive(Debug, PartialEq, Eq)]
pub struct Call {
    /// The contract that was called.
    pub address: Vec<u8>,
    /// The input; its first four bytes select the function.
    pub input: Vec<u8>,
    /// What the call returned.
    pub return_data: Vec<u8>,
    /// The position at which the call began, in the order of everything that
    /// happens in the block.
    pub begin_ordinal: u64,
    /// Whether the effects of the call were reverted.
    pub state_reverted: bool,
}

/// A transaction with what it left in the block.
#[derive(Debug, PartialEq, Eq)]
pub struct Transaction {
    pub hash: Vec<u8>,
    pub status: TransactionStatus,
    pub logs: Vec<Log>,
    pub calls: Vec<Call>,
}

/// A block.
#[derive(Debug, PartialEq, Eq)]
pub struct Block {
    pub number: u64,
    pub timestamp: Timestamp,
    pub transactions: Vec<Transaction>,
}

/// Whether the logs and calls of a transaction are decoded at all: only those
/// of a transaction that succeeded are.
pub open spec fn is_processed(transaction: Transaction) -> bool {
    transaction.status == TransactionStatus::Succeeded
}

impl Transaction {
    /// Whether the transaction succeeded, so that its logs and calls are
    /// decoded.
    pub fn succeeded(&self) -> (yes: bool)
        ensures
            yes == is_processed(*self),
    {
        self.status == TransactionStatus::Succeeded
    }
}

} // verus!
