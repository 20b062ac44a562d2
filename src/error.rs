use vstd::prelude::*;

verus! {

/// The ways in which an operation of the ledger can refuse its input.
#[derive(Debug, Clone, Copy, PartialEq, Eq, Structural)]
pub enum LedgerError {
    /// A domain string with fewer than two `.`-separated labels.
    InvalidFormat,
    /// An operation that needs a declaration was given an update.
    WrongVariant,
}

} // verus!
