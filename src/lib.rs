//! A ledger of domain-name ownership: domains are parsed into labels, claimed
//! by a declaration that carries a verifying key, and changed by updates whose
//! signatures bind a counter, the new records and the declaration's content hash.

pub mod chain;
pub mod crypto;
pub mod domains;
pub mod encoding;
pub mod error;
pub mod transactions;

pub use chain::{hash_block, Block, Chain};
pub use domains::{Domain, Record};
pub use error::LedgerError;
pub use transactions::Transaction;
