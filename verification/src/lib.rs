//! A non-fungible token ledger with metered storage.
//!
//! Every token has exactly one owner. Owners may approve delegates to move a
//! token on their behalf. Each call that changes the ledger is settled against
//! the deposit attached to it: growth of the accounted state is charged,
//! shrinkage is paid back.
//!
//! The ledger holds its whole state in one value and takes everything that the
//! hosting chain supplies (caller, deposit, price of a byte) as an argument.

pub mod approval;
pub mod contract;
pub mod dispatch;
pub mod enumeration;
pub mod error;
pub mod laws;
pub mod layout;
pub mod ledger;
pub mod metadata;
pub mod model;
pub mod ownership;
pub mod storage;
pub mod table;

pub use contract::{ContractSnapshot, WrappedAppchainNFT};
pub use enumeration::EnumerationView;
pub use error::LedgerError;
pub use ledger::{CallContext, HookVerdict, Token, TokenLedger};
pub use metadata::{ContractMetadata, TokenMetadata};
pub use storage::{Settlement, StorageAccountant};
