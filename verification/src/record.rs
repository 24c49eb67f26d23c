use vstd::prelude::*;

verus! {

/// A transaction on the remote ledger, normalized into a flat record.
///
/// Once created a record is never changed; the store only appends.
#[derive(Debug, Clone, PartialEq)]
pub struct TransactionData {
    /// Unique identifier of the transaction on the ledger.
    pub signature: String,
    /// Account identifier of the first account slot, or `"unknown"`.
    pub sender: String,
    /// Account identifier of the second account slot, or `"unknown"`.
    pub receiver: String,
    /// Non-negative balance gain of the second account slot.
    pub amount: u64,
    /// Unix epoch seconds of the block that holds the transaction.
    pub timestamp: u64,
}

/// The mathematical value of a `TransactionData`.
pub struct RecordModel {
    pub signature: Seq<char>,
    pub sender: Seq<char>,
    pub receiver: Seq<char>,
    pub amount: u64,
    pub timestamp: u64,
}

impl View for TransactionData {
    type V = RecordModel;

    open spec fn view(&self) -> RecordModel {
        RecordModel {
            signature: self.signature@,
            sender: self.sender@,
            receiver: self.receiver@,
            amount: self.amount,
            timestamp: self.timestamp,
        }
    }
}

impl TransactionData {
    /// A copy whose mathematical value equals this record's.
    pub fn duplicate(&self) -> (r: TransactionData)
        ensures
            r@ == self@,
    {
        TransactionData {
            signature: self.signature.clone(),
            sender: self.sender.clone(),
            receiver: self.receiver.clone(),
            amount: self.amount,
            timestamp: self.timestamp,
        }
    }
}

/// The mathematical values of a sequence of records.
pub open spec fn models_of(s: Seq<TransactionData>) -> Seq<RecordModel> {
    s.map_values(|t: TransactionData| t@)
}

} // verus!
