//! The library's model of the chain feed: receipts, their actions, and the
//! execution status of the surrounding outcome. The upstream indexer hands
//! these in already ordered; only successful receipts carry state transitions.
use vstd::prelude::*;

verus! {

/// Status of one receipt's execution outcome.
pub enum ExecutionStatus {
    /// The receipt succeeded and returned a value.
    SuccessValue,
    /// The receipt succeeded and chained into another receipt.
    SuccessReceiptId,
    /// The receipt failed.
    Failure,
    /// The receipt is pending or its status is unknown.
    Unknown,
}

impl ExecutionStatus {
    /// Only value-bearing or receipt-chaining successes carry authoritative
    /// state transitions.
    pub open spec fn is_success(self) -> bool {
        self is SuccessValue || self is SuccessReceiptId
    }

    pub fn succeeded(&self) -> (r: bool)
        ensures
            r == self.is_success(),
    {
        match self {
            ExecutionStatus::SuccessValue => true,
            ExecutionStatus::SuccessReceiptId => true,
            ExecutionStatus::Failure => false,
            ExecutionStatus::Unknown => false,
        }
    }
}

/// Authority scope of an access key.
pub enum Permission {
    FullAccess,
    FunctionCall,
}

impl Permission {
    /// The classification string stored in the `permission_kind` column.
    pub open spec fn spec_kind(self) -> Seq<char> {
        match self {
            Permission::FullAccess => "FULL_ACCESS"@,
            Permission::FunctionCall => "FUNCTION_CALL"@,
        }
    }

    pub fn kind_str(&self) -> (r: &'static str)
        ensures
            r@ == self.spec_kind(),
    {
        match self {
            Permission::FullAccess => "FULL_ACCESS",
            Permission::FunctionCall => "FUNCTION_CALL",
        }
    }
}

/// One state-changing operation requested within a receipt. Kinds the
/// projection ignores are collapsed into `Other`.
pub enum Action {
    CreateAccount,
    DeleteAccount,
    AddKey { public_key: String, permission: Permission },
    DeleteKey { public_key: String },
    Transfer,
    Other,
}

/// An action receipt carries the ordered list of actions; any other receipt
/// kind carries no lifecycle information.
pub enum ReceiptEnum {
    Action { actions: Vec<Action> },
    Data,
}

/// A unit of work addressed to an account.
pub struct Receipt {
    pub receiver_id: String,
    pub receipt_id: String,
    pub receipt: ReceiptEnum,
}

/// A receipt together with the status of its execution outcome.
pub struct ExecutionOutcomeWithReceipt {
    pub status: ExecutionStatus,
    pub receipt: Receipt,
}

} // verus!
