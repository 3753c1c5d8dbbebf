use vstd::prelude::*;

verus! {

/// Why a call on the ledger was refused. A refused call changes nothing.
#[derive(Clone, Copy, Debug, PartialEq, Eq, Structural)]
pub enum LedgerError {
    /// The caller has no right to do this.
    Unauthorized,
    /// No live token has this id.
    TokenNotFound,
    /// The delegate holds no approval on the token.
    ApprovalNotFound,
    /// The token id is in use, or was in use before the token was burned.
    DuplicateToken,
    /// The contract state exists already.
    AlreadyInitialized,
    /// The attached deposit does not cover the storage that the call needs.
    InsufficientDeposit,
    /// The approval id given is not the one the delegate holds now.
    InvalidApproval,
    /// Metadata is missing or breaks the rules for its fields.
    InvalidMetadata,
    /// The stated sender does not own the token.
    SenderMismatch,
    /// The receiver owns the token already: the transfer would do nothing.
    SelfTransferNoop,
    /// A counter, the accounted storage or an amount left its range.
    ResourceExhausted,
}

impl LedgerError {
    /// The refusal in words, as a caller is told it.
    pub open spec fn spec_message(self) -> Seq<char> {
        match self {
            LedgerError::Unauthorized => "Unauthorized"@,
            LedgerError::TokenNotFound => "Token not found"@,
            LedgerError::ApprovalNotFound => "Approval not found"@,
            LedgerError::DuplicateToken => "token_id must be unique"@,
            LedgerError::AlreadyInitialized => "Already initialized"@,
            LedgerError::InsufficientDeposit => "Insufficient deposit to cover storage"@,
            LedgerError::InvalidApproval => "Invalid approval"@,
            LedgerError::InvalidMetadata => "Invalid metadata"@,
            LedgerError::SenderMismatch => "Sender must be the token owner"@,
            LedgerError::SelfTransferNoop => "Current and next owner must differ"@,
            LedgerError::ResourceExhausted => "Resource exhausted"@,
        }
    }

    /// The refusal in words, as a caller is told it.
    pub fn message(&self) -> (text: String)
        ensures
            text@ == self.spec_message(),
    {
        match self {
            LedgerError::Unauthorized => "Unauthorized".to_string(),
            LedgerError::TokenNotFound => "Token not found".to_string(),
            LedgerError::ApprovalNotFound => "Approval not found".to_string(),
            LedgerError::DuplicateToken => "token_id must be unique".to_string(),
            LedgerError::AlreadyInitialized => "Already initialized".to_string(),
            LedgerError::InsufficientDeposit => "Insufficient deposit to cover storage".to_string(),
            LedgerError::InvalidApproval => "Invalid approval".to_string(),
            LedgerError::InvalidMetadata => "Invalid metadata".to_string(),
            LedgerError::SenderMismatch => "Sender must be the token owner".to_string(),
            LedgerError::SelfTransferNoop => "Current and next owner must differ".to_string(),
            LedgerError::ResourceExhausted => "Resource exhausted".to_string(),
        }
    }
}

} // verus!
