//! The ways an invocation can fail.
use vstd::prelude::*;

verus! {

/// Why an invocation was refused. Every failure is final for the
/// invocation that met it: nothing it staged is applied.
#[derive(Clone, Copy, Debug, PartialEq, Eq, Structural)]
pub enum IntroError {
    /// A record is to be created at an address that already holds one.
    DuplicateRecord,
    /// An address does not derive from its seeds and the bump stored with it.
    AddressMismatch,
    /// The caller is not the owner stored in the introduction.
    OwnerMismatch,
    /// A record would be larger than the store's ceiling, or a length in it
    /// does not fit the width in which it is kept.
    SizeOverflow,
    /// The payer could not cover the cost of the storage asked for.
    InsufficientFunds,
    /// The token ledger refused the call made on it.
    ExternalLedgerFailure,
    /// No record of the expected kind is stored at the address.
    NotFound,
    /// No bump makes the seeds derive a usable address.
    DerivationFailed,
    /// The reply counter cannot be incremented any further.
    CounterExhausted,
}

} // verus!
