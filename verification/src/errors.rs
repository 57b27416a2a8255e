//! Error taxonomy of the ledger.
//!
//! Only `IoError` is ever fatal to a run; every other variant describes a
//! record that the engine or the record parser discards while processing
//! continues.

use vstd::prelude::*;

verus! {

/// Why a record was rejected, or why a run cannot proceed at all.
#[derive(Clone, Copy, Debug, PartialEq, Eq, Structural)]
pub enum KrakenError {
    /// The input resource could not be opened or read; fatal to the run.
    IoError,
    /// A numeric kind tag or kind string matched no transaction kind.
    EnumError,
    /// A structurally invalid input row: bad kind, missing or malformed
    /// amount on a monetary kind, or an amount on a reference kind.
    MalformedRecord,
    /// A deposit or withdrawal reused an existing transaction id.
    DuplicateTx,
    /// A withdrawal asked for more than the available balance.
    InsufficientFunds,
    /// A dispute, resolve or chargeback named an absent transaction, one
    /// owned by another client, or one in the wrong dispute state.
    InvalidDisputeReference,
}

} // verus!
