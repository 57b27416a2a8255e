//! Per-client account state: available and held balances and the terminal
//! locked flag.
//!
//! The mutation methods are simple arithmetic with no cross-validation; the
//! engine validates legality before calling them, which keeps this type
//! trivially correct and checkable in isolation. Balances are 128-bit counts
//! of 1/10000 units; the preconditions only rule out exceeding that machine
//! width.

use vstd::prelude::*;
use crate::model::{abs_val, AccountState};

verus! {

/// One client's balances and locked flag. `total` is derived, never stored.
#[derive(Clone, Copy, Debug)]
pub struct AccountLedger {
    pub available: i128,
    pub held: i128,
    pub locked: bool,
}

impl View for AccountLedger {
    type V = AccountState;

    open spec fn view(&self) -> AccountState {
        AccountState {
            available: self.available as int,
            held: self.held as int,
            locked: self.locked,
        }
    }
}

impl AccountLedger {
    /// A fresh account: no funds, not locked.
    pub fn new() -> (r: AccountLedger)
        ensures
            r@ == crate::model::empty_account(),
    {
        AccountLedger { available: 0, held: 0, locked: false }
    }

    /// Total funds: available plus held, recomputed on demand.
    pub fn total(&self) -> (r: i128)
        requires
            crate::model::in_i128(self@.available + self@.held),
        ensures
            r as int == self@.available + self@.held,
    {
        self.available + self.held
    }

    /// Add a deposit to the available funds.
    pub fn credit(&mut self, amount: u64)
        requires
            old(self)@.available + amount <= i128::MAX,
        ensures
            final(self)@ == (AccountState {
                available: old(self)@.available + amount,
                ..old(self)@
            }),
    {
        self.available = self.available + amount as i128;
    }

    /// Remove a withdrawal from the available funds. Never drives available
    /// below zero: callers must check `available >= amount` first.
    pub fn debit(&mut self, amount: u64)
        requires
            old(self)@.available >= amount,
        ensures
            final(self)@ == (AccountState {
                available: old(self)@.available - amount,
                ..old(self)@
            }),
    {
        self.available = self.available - amount as i128;
    }

    /// Freeze a disputed transaction's effect: subtract its signed amount
    /// from available and hold its absolute value.
    pub fn hold(&mut self, signed_amount: i128)
        requires
            signed_amount != i128::MIN,
            crate::model::in_i128(old(self)@.available - signed_amount),
            crate::model::in_i128(old(self)@.held + abs_val(signed_amount as int)),
        ensures
            final(self)@ == (AccountState {
                available: old(self)@.available - signed_amount,
                held: old(self)@.held + abs_val(signed_amount as int),
                locked: old(self)@.locked,
            }),
    {
        self.available = self.available - signed_amount;
        self.held = self.held + (if signed_amount >= 0 {
            signed_amount
        } else {
            -signed_amount
        });
    }

    /// Release a resolved dispute: the exact reverse of [`Self::hold`].
    pub fn release(&mut self, signed_amount: i128)
        requires
            signed_amount != i128::MIN,
            crate::model::in_i128(old(self)@.available + signed_amount),
            crate::model::in_i128(old(self)@.held - abs_val(signed_amount as int)),
        ensures
            final(self)@ == (AccountState {
                available: old(self)@.available + signed_amount,
                held: old(self)@.held - abs_val(signed_amount as int),
                locked: old(self)@.locked,
            }),
    {
        self.available = self.available + signed_amount;
        self.held = self.held - (if signed_amount >= 0 {
            signed_amount
        } else {
            -signed_amount
        });
    }

    /// Forfeit a charged-back amount: remove it from held, and so from the
    /// total.
    pub fn forfeit(&mut self, signed_amount: i128)
        requires
            signed_amount != i128::MIN,
            crate::model::in_i128(old(self)@.held - abs_val(signed_amount as int)),
        ensures
            final(self)@ == (AccountState {
                held: old(self)@.held - abs_val(signed_amount as int),
                ..old(self)@
            }),
    {
        self.held = self.held - (if signed_amount >= 0 {
            signed_amount
        } else {
            -signed_amount
        });
    }

    /// Lock the account; terminal for the run.
    pub fn lock(&mut self)
        ensures
            final(self)@ == (AccountState { locked: true, ..old(self)@ }),
    {
        self.locked = true;
    }
}

} // verus!
