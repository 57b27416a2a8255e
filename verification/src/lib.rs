//! A transaction ledger engine.
//!
//! An ordered stream of records (deposit, withdraw, dispute, resolve,
//! chargeback) is interpreted against per-client account state. Amounts are
//! fixed-point values with four decimal places, held as integer counts of
//! 1/10000 units, so every balance computation is exact integer arithmetic.

pub mod account;
pub mod data;
pub mod engine;
pub mod errors;
pub mod history;
pub mod model;
pub mod parse;
pub mod report;

use vstd::prelude::*;

verus! {

} // verus!
